//! The mesh keeps its arrays in `im`'s persistent collections, so that a copy
//! of a mesh shares its storage with the mesh it was copied from. This module
//! declares those collections and gives each call the mesh makes a contract
//! over what the collection holds.

use vstd::prelude::*;

verus! {

/// `im`'s persistent vector.
#[verifier::external_type_specification]
#[verifier::external_body]
#[verifier::reject_recursive_types(A)]
pub struct ExVector<A>(im::Vector<A>);

/// `im`'s persistent hash map.
#[verifier::external_type_specification]
#[verifier::external_body]
#[verifier::reject_recursive_types(K)]
#[verifier::reject_recursive_types(V)]
#[verifier::reject_recursive_types(S)]
pub struct ExHashMap<K, V, S>(im::HashMap<K, V, S>);

/// An undirected edge, named by the raw handles of its two end points.
pub type EdgeKey = (u32, u32);

/// One row per face: the raw handles of its three points, in authored order.
pub type FaceTable = im::Vector<(u32, u32, u32)>;

/// One row per face: its three edges.
pub type FaceEdgeTable = im::Vector<(EdgeKey, EdgeKey, EdgeKey)>;

/// One row per point or per face: a position or a normal.
pub type VectorTable = im::Vector<glam::Vec3>;

/// One row per point: the raw handles of the faces that use it. The rows are
/// `smallvec::SmallVec`s in an `im::Vector`.
#[verifier::external_body]
pub struct IncidenceTable {
    rows: im::Vector<smallvec::SmallVec<[u32; 3]>>,
}

/// For each edge its two face slots; a slot that holds 0 is free.
pub type EdgeTable = im::HashMap<EdgeKey, (u32, u32), std::collections::hash_map::RandomState>;

/// The rows of a face table, first to last.
pub uninterp spec fn face_rows(t: FaceTable) -> Seq<(u32, u32, u32)>;

/// The rows of a face-edge table, first to last.
pub uninterp spec fn face_edge_rows(t: FaceEdgeTable) -> Seq<(EdgeKey, EdgeKey, EdgeKey)>;

/// The rows of a vector table, first to last.
pub uninterp spec fn vector_rows(t: VectorTable) -> Seq<glam::Vec3>;

/// The rows of an incidence table, first to last, each in the order its
/// entries were added.
pub uninterp spec fn incidence_rows(t: IncidenceTable) -> Seq<Seq<u32>>;

/// The entries of an edge table.
pub uninterp spec fn edge_entries(t: EdgeTable) -> Map<EdgeKey, (u32, u32)>;

/// `im::Vector::new`: an empty vector.
#[verifier::external_body]
pub(crate) fn face_table_new() -> (t: FaceTable)
    ensures
        face_rows(t) == Seq::<(u32, u32, u32)>::empty(),
{
    im::Vector::new()
}

/// `im::Vector::len`.
#[verifier::external_body]
pub(crate) fn face_table_len(t: &FaceTable) -> (n: usize)
    ensures
        n == face_rows(*t).len(),
{
    t.len()
}

/// `im::Vector::push_back`: the value becomes the last row.
#[verifier::external_body]
pub(crate) fn face_table_push(t: &mut FaceTable, row: (u32, u32, u32))
    ensures
        face_rows(*final(t)) == face_rows(*old(t)).push(row),
{
    t.push_back(row)
}

/// `im::Vector::get` on an index below the length, and a copy of the row found.
#[verifier::external_body]
pub(crate) fn face_table_get(t: &FaceTable, i: usize) -> (row: (u32, u32, u32))
    requires
        i < face_rows(*t).len(),
    ensures
        row == face_rows(*t)[i as int],
{
    *t.get(i).unwrap()
}

/// `im::Vector::set` on an index below the length: that row is replaced, the
/// others stay.
#[verifier::external_body]
pub(crate) fn face_table_set(t: &mut FaceTable, i: usize, row: (u32, u32, u32))
    requires
        i < face_rows(*old(t)).len(),
    ensures
        face_rows(*final(t)) == face_rows(*old(t)).update(i as int, row),
{
    t.set(i, row);
}

/// `im::Vector::clone`: a vector with the same rows.
#[verifier::external_body]
pub(crate) fn face_table_clone(t: &FaceTable) -> (c: FaceTable)
    ensures
        face_rows(c) == face_rows(*t),
{
    t.clone()
}

/// `im::Vector::new`: an empty vector.
#[verifier::external_body]
pub(crate) fn face_edge_table_new() -> (t: FaceEdgeTable)
    ensures
        face_edge_rows(t) == Seq::<(EdgeKey, EdgeKey, EdgeKey)>::empty(),
{
    im::Vector::new()
}

/// `im::Vector::push_back`: the value becomes the last row.
#[verifier::external_body]
pub(crate) fn face_edge_table_push(t: &mut FaceEdgeTable, row: (EdgeKey, EdgeKey, EdgeKey))
    ensures
        face_edge_rows(*final(t)) == face_edge_rows(*old(t)).push(row),
{
    t.push_back(row)
}

/// `im::Vector::get` on an index below the length, and a copy of the row found.
#[verifier::external_body]
pub(crate) fn face_edge_table_get(t: &FaceEdgeTable, i: usize) -> (row: (EdgeKey, EdgeKey, EdgeKey))
    requires
        i < face_edge_rows(*t).len(),
    ensures
        row == face_edge_rows(*t)[i as int],
{
    *t.get(i).unwrap()
}

/// `im::Vector::clone`: a vector with the same rows.
#[verifier::external_body]
pub(crate) fn face_edge_table_clone(t: &FaceEdgeTable) -> (c: FaceEdgeTable)
    ensures
        face_edge_rows(c) == face_edge_rows(*t),
{
    t.clone()
}

/// `im::Vector::new`: an empty vector.
#[verifier::external_body]
pub(crate) fn vector_table_new() -> (t: VectorTable)
    ensures
        vector_rows(t) == Seq::<glam::Vec3>::empty(),
{
    im::Vector::new()
}

/// `im::Vector::len`.
#[verifier::external_body]
pub(crate) fn vector_table_len(t: &VectorTable) -> (n: usize)
    ensures
        n == vector_rows(*t).len(),
{
    t.len()
}

/// `im::Vector::push_back`: the value becomes the last row.
#[verifier::external_body]
pub(crate) fn vector_table_push(t: &mut VectorTable, row: glam::Vec3)
    ensures
        vector_rows(*final(t)) == vector_rows(*old(t)).push(row),
{
    t.push_back(row)
}

/// `im::Vector::get` on an index below the length, and a copy of the row found.
#[verifier::external_body]
pub(crate) fn vector_table_get(t: &VectorTable, i: usize) -> (row: glam::Vec3)
    requires
        i < vector_rows(*t).len(),
    ensures
        row == vector_rows(*t)[i as int],
{
    *t.get(i).unwrap()
}

/// `im::Vector::set` on an index below the length: that row is replaced, the
/// others stay.
#[verifier::external_body]
pub(crate) fn vector_table_set(t: &mut VectorTable, i: usize, row: glam::Vec3)
    requires
        i < vector_rows(*old(t)).len(),
    ensures
        vector_rows(*final(t)) == vector_rows(*old(t)).update(i as int, row),
{
    t.set(i, row);
}

/// `im::Vector::clone`: a vector with the same rows.
#[verifier::external_body]
pub(crate) fn vector_table_clone(t: &VectorTable) -> (c: VectorTable)
    ensures
        vector_rows(c) == vector_rows(*t),
{
    t.clone()
}

/// `im::Vector::new`: an empty vector.
#[verifier::external_body]
pub(crate) fn incidence_table_new() -> (t: IncidenceTable)
    ensures
        incidence_rows(t) == Seq::<Seq<u32>>::empty(),
{
    IncidenceTable { rows: im::Vector::new() }
}

/// `im::Vector::push_back` of an empty `smallvec::SmallVec`: a new last row
/// without entries.
#[verifier::external_body]
pub(crate) fn incidence_table_push_empty(t: &mut IncidenceTable)
    ensures
        incidence_rows(*final(t)) == incidence_rows(*old(t)).push(Seq::<u32>::empty()),
{
    t.rows.push_back(smallvec::SmallVec::new())
}

/// `im::Vector`'s mutable index on a row below the length, and
/// `smallvec::SmallVec::push` on that row: the entry becomes the row's last.
#[verifier::external_body]
pub(crate) fn incidence_table_add(t: &mut IncidenceTable, i: usize, entry: u32)
    requires
        i < incidence_rows(*old(t)).len(),
    ensures
        incidence_rows(*final(t)) == incidence_rows(*old(t)).update(
            i as int,
            incidence_rows(*old(t))[i as int].push(entry),
        ),
{
    t.rows[i].push(entry)
}

/// `im::Vector`'s index on a row below the length, and `to_vec` on that row.
#[verifier::external_body]
pub(crate) fn incidence_table_row(t: &IncidenceTable, i: usize) -> (row: Vec<u32>)
    requires
        i < incidence_rows(*t).len(),
    ensures
        row@ == incidence_rows(*t)[i as int],
{
    t.rows[i].to_vec()
}

/// `im::Vector::clone`: a vector with the same rows.
#[verifier::external_body]
pub(crate) fn incidence_table_clone(t: &IncidenceTable) -> (c: IncidenceTable)
    ensures
        incidence_rows(c) == incidence_rows(*t),
{
    IncidenceTable { rows: t.rows.clone() }
}

/// `im::HashMap::new`: a map without entries.
#[verifier::external_body]
pub(crate) fn edge_table_new() -> (t: EdgeTable)
    ensures
        (edge_entries(t) == Map::<EdgeKey, (u32, u32)>::empty()),
{
    im::HashMap::new()
}

/// `im::HashMap::get`, and a copy of the value found.
#[verifier::external_body]
pub(crate) fn edge_table_get(t: &EdgeTable, key: EdgeKey) -> (slots: Option<(u32, u32)>)
    ensures
        slots == (if edge_entries(*t).contains_key(key) {
            Some(edge_entries(*t)[key])
        } else {
            None
        }),
{
    t.get(&key).copied()
}

/// `im::HashMap::insert`: the key now maps to the value, the other entries stay.
#[verifier::external_body]
pub(crate) fn edge_table_insert(t: &mut EdgeTable, key: EdgeKey, slots: (u32, u32))
    ensures
        edge_entries(*final(t)) == edge_entries(*old(t)).insert(key, slots),
{
    t.insert(key, slots);
}

/// `im::HashMap::clone`: a map with the same entries.
#[verifier::external_body]
pub(crate) fn edge_table_clone(t: &EdgeTable) -> (c: EdgeTable)
    ensures
        edge_entries(c) == edge_entries(*t),
{
    t.clone()
}

} // verus!
