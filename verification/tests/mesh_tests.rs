use glam::Vec3;
use oneiroi::mesh::{EdgeHandle, FaceHandle, MeshError, OneiroiMesh, PointHandle};

fn square() -> (OneiroiMesh, [PointHandle; 4]) {
    let mut mesh = OneiroiMesh::default();
    let a = mesh.add_point(Vec3::new(0.0, 0.0, 0.0));
    let b = mesh.add_point(Vec3::new(1.0, 0.0, 0.0));
    let c = mesh.add_point(Vec3::new(1.0, 0.0, 1.0));
    let d = mesh.add_point(Vec3::new(0.0, 0.0, 1.0));
    (mesh, [a, b, c, d])
}

#[test]
fn handles_count_from_one() {
    let p = PointHandle::new(1);
    assert_eq!(p.idx(), 0);
    assert_eq!(p.raw(), 1);
    let f = FaceHandle::new(7);
    assert_eq!(f.idx(), 6);
    let e = EdgeHandle::new((PointHandle::new(2), PointHandle::new(5)));
    assert_eq!(e.ends(), (PointHandle::new(2), PointHandle::new(5)));
}

#[test]
fn add_point_returns_consecutive_handles() {
    let (mesh, [a, b, c, d]) = square();
    assert_eq!([a.raw(), b.raw(), c.raw(), d.raw()], [1, 2, 3, 4]);
    assert_eq!(mesh.point_count(), 4);
    assert_eq!(mesh.face_count(), 0);
    assert_eq!(mesh.point_position(c), Ok(Vec3::new(1.0, 0.0, 1.0)));
    assert_eq!(mesh.faces_in_point(a), Ok(vec![]));
}

#[test]
fn add_points_returns_handles_in_order() {
    let mut mesh = OneiroiMesh::default();
    let first = mesh.add_point(Vec3::ZERO);
    let more = mesh.add_points(&vec![Vec3::X, Vec3::Y, Vec3::Z]);
    assert_eq!(first.raw(), 1);
    assert_eq!(more.iter().map(|p| p.raw()).collect::<Vec<_>>(), vec![2, 3, 4]);
    assert_eq!(mesh.point_position(more[1]), Ok(Vec3::Y));
    let all = mesh.get_points();
    assert_eq!(all.len(), 4);
    assert_eq!(all[3], Vec3::Z);
}

#[test]
fn triangle_keeps_winding_and_registers_everywhere() {
    let (mut mesh, [a, b, c, _]) = square();
    let face = mesh.add_tri_with_points([c, a, b]).unwrap();
    assert_eq!(face.raw(), 1);
    assert_eq!(mesh.points_in_face(face), Ok([c, a, b]));
    assert_eq!(mesh.get_faces(), vec![[c, a, b]]);
    let edges = mesh.edges_in_face(face).unwrap();
    assert_eq!(edges[0], EdgeHandle::new((a, b)));
    assert_eq!(edges[1], EdgeHandle::new((b, c)));
    assert_eq!(edges[2], EdgeHandle::new((a, c)));
    for edge in edges {
        assert_eq!(mesh.faces_in_edge(edge), Ok((Some(face), None)));
    }
    for point in [a, b, c] {
        assert_eq!(mesh.faces_in_point(point), Ok(vec![face]));
    }
    assert_eq!(mesh.points_in_edge(EdgeHandle::new((a, b))), Ok([a, b]));
}

#[test]
fn normal_follows_the_winding() {
    let (mut mesh, [a, b, c, _]) = square();
    let up = mesh.add_tri_with_points([a, c, b]).unwrap();
    assert_eq!(mesh.get_face_normal(up), Ok(Vec3::new(0.0, 1.0, 0.0)));
    let (mut mesh, [a, b, c, _]) = square();
    let down = mesh.add_tri_with_points([a, b, c]).unwrap();
    assert_eq!(mesh.get_face_normal(down), Ok(Vec3::new(0.0, -1.0, 0.0)));
}

#[test]
fn triangle_with_repeated_corner_is_turned_down() {
    let (mut mesh, [a, b, _, _]) = square();
    assert_eq!(mesh.add_tri_with_points([a, b, a]), Err(MeshError::DuplicatePoint));
    assert_eq!(mesh.add_tri_with_points([a, a, b]), Err(MeshError::DuplicatePoint));
    assert_eq!(mesh.add_tri_with_points([b, a, a]), Err(MeshError::DuplicatePoint));
    assert_eq!(mesh.face_count(), 0);
    assert_eq!(mesh.points_in_edge(EdgeHandle::new((a, b))), Err(MeshError::MissingEdge));
}

#[test]
fn triangle_on_missing_point_is_turned_down() {
    let (mut mesh, [a, b, _, _]) = square();
    let stranger = PointHandle::new(9);
    assert_eq!(mesh.add_tri_with_points([a, b, stranger]), Err(MeshError::MissingPoint));
    assert_eq!(mesh.add_tri_with_points([stranger, stranger, a]), Err(MeshError::MissingPoint));
    assert_eq!(mesh.face_count(), 0);
}

#[test]
fn third_face_on_an_edge_is_turned_down() {
    let (mut mesh, [a, b, c, d]) = square();
    let e = mesh.add_point(Vec3::new(0.5, 1.0, 0.5));
    let first = mesh.add_tri_with_points([a, b, c]).unwrap();
    let second = mesh.add_tri_with_points([a, c, d]).unwrap();
    let shared = EdgeHandle::new((a, c));
    assert_eq!(mesh.faces_in_edge(shared), Ok((Some(first), Some(second))));
    assert_eq!(mesh.add_tri_with_points([c, a, e]), Err(MeshError::EdgeFull));
    assert_eq!(mesh.face_count(), 2);
    assert_eq!(mesh.faces_in_point(e), Ok(vec![]));
    assert_eq!(mesh.faces_in_edge(shared), Ok((Some(first), Some(second))));
    assert_eq!(mesh.points_in_edge(EdgeHandle::new((a, e))), Err(MeshError::MissingEdge));
}

#[test]
fn every_face_has_distinct_points_and_is_listed_at_its_edges() {
    let (mut mesh, [a, b, c, d]) = square();
    mesh.add_tri_with_points([a, b, c]).unwrap();
    mesh.add_tri_with_points([a, c, d]).unwrap();
    for index in 1..=mesh.face_count() {
        let face = FaceHandle::new(index);
        let points = mesh.points_in_face(face).unwrap();
        assert!(points[0] != points[1] && points[1] != points[2] && points[0] != points[2]);
        for edge in mesh.edges_in_face(face).unwrap() {
            let (first, second) = mesh.faces_in_edge(edge).unwrap();
            assert!(first == Some(face) || second == Some(face));
        }
    }
}

#[test]
fn strip_alternates_the_winding() {
    let (mut mesh, [a, b, c, d]) = square();
    let faces = mesh.add_triangle_strip_with_points(&vec![a, b, d, c]).unwrap();
    assert_eq!(faces.len(), 2);
    assert_eq!(mesh.points_in_face(faces[0]), Ok([a, b, d]));
    assert_eq!(mesh.points_in_face(faces[1]), Ok([d, b, c]));
    assert_eq!(mesh.get_face_normal(faces[0]), mesh.get_face_normal(faces[1]));
}

#[test]
fn strip_of_fewer_than_three_points_is_empty() {
    let (mut mesh, [a, b, _, _]) = square();
    assert_eq!(mesh.add_triangle_strip_with_points(&vec![a, b]), Ok(vec![]));
    assert_eq!(mesh.add_triangle_strip_with_points(&vec![]), Ok(vec![]));
}

#[test]
fn failed_strip_leaves_the_mesh_as_it_was() {
    let (mut mesh, [a, b, c, d]) = square();
    let r = mesh.add_triangle_strip_with_points(&vec![a, b, c, d, d]);
    assert_eq!(r, Err(MeshError::DuplicatePoint));
    let r = mesh.add_triangle_strip_with_points(&vec![a, b, c, a, b]);
    assert_eq!(r, Err(MeshError::EdgeFull));
    assert_eq!(mesh.face_count(), 0);
    assert_eq!(mesh.faces_in_point(a), Ok(vec![]));
    assert_eq!(mesh.points_in_edge(EdgeHandle::new((a, b))), Err(MeshError::MissingEdge));
}

#[test]
fn add_triangles_is_all_or_nothing() {
    let (mut mesh, [a, b, c, d]) = square();
    assert_eq!(mesh.add_triangles(&vec![[a, b, c], [a, a, d]]), Err(MeshError::DuplicatePoint));
    assert_eq!(mesh.face_count(), 0);
    let faces = mesh.add_triangles(&vec![[a, b, c], [a, c, d]]).unwrap();
    assert_eq!(faces.iter().map(|f| f.raw()).collect::<Vec<_>>(), vec![1, 2]);
}

#[test]
fn queries_report_missing_handles() {
    let (mesh, _) = square();
    let face = FaceHandle::new(1);
    assert_eq!(mesh.points_in_face(face), Err(MeshError::MissingFace));
    assert_eq!(mesh.edges_in_face(face), Err(MeshError::MissingFace));
    assert_eq!(mesh.get_face_normal(face), Err(MeshError::MissingFace));
    assert_eq!(mesh.point_position(PointHandle::new(5)), Err(MeshError::MissingPoint));
    assert_eq!(mesh.faces_in_point(PointHandle::new(5)), Err(MeshError::MissingPoint));
}

#[test]
fn moving_points_keeps_the_cached_normal() {
    let (mut mesh, [a, b, c, _]) = square();
    let face = mesh.add_tri_with_points([a, c, b]).unwrap();
    let normal = mesh.get_face_normal(face);
    assert_eq!(mesh.move_point(&a, Vec3::new(0.0, 2.0, 0.0)), Ok(()));
    assert_eq!(mesh.point_position(a), Ok(Vec3::new(0.0, 2.0, 0.0)));
    assert_eq!(mesh.get_face_normal(face), normal);
    assert_eq!(mesh.move_tri(&face, Vec3::new(1.0, 1.0, 1.0)), Ok(()));
    assert_eq!(mesh.point_position(a), Ok(Vec3::new(1.0, 3.0, 1.0)));
    assert_eq!(mesh.point_position(b), Ok(Vec3::new(2.0, 1.0, 1.0)));
    assert_eq!(mesh.point_position(c), Ok(Vec3::new(2.0, 1.0, 2.0)));
    assert_eq!(mesh.move_point(&PointHandle::new(9), Vec3::ONE), Err(MeshError::MissingPoint));
    assert_eq!(mesh.move_tri(&FaceHandle::new(3), Vec3::ONE), Err(MeshError::MissingFace));
}

#[test]
fn duplicate_point_copies_the_position() {
    let (mut mesh, [_, b, _, _]) = square();
    let copy = mesh.duplicate_point(&b).unwrap();
    assert_eq!(copy.raw(), 5);
    assert_eq!(mesh.point_position(copy), Ok(Vec3::new(1.0, 0.0, 0.0)));
    assert_eq!(mesh.duplicate_point(&PointHandle::new(17)), Err(MeshError::MissingPoint));
}

#[test]
fn rebind_changes_only_the_face_row() {
    let (mut mesh, [a, b, c, d]) = square();
    let face = mesh.add_tri_with_points([a, b, c]).unwrap();
    assert_eq!(mesh.rebind_tri(face, [a, b, d]), Ok(()));
    assert_eq!(mesh.points_in_face(face), Ok([a, b, d]));
    assert_eq!(mesh.faces_in_point(c), Ok(vec![face]));
    assert_eq!(mesh.faces_in_point(d), Ok(vec![]));
    assert_eq!(mesh.rebind_tri(face, [a, a, d]), Err(MeshError::DuplicatePoint));
    assert_eq!(mesh.rebind_tri(face, [a, b, PointHandle::new(8)]), Err(MeshError::MissingPoint));
    assert_eq!(mesh.rebind_tri(FaceHandle::new(2), [a, b, d]), Err(MeshError::MissingFace));
    assert_eq!(mesh.points_in_face(face), Ok([a, b, d]));
}

#[test]
fn clone_shares_nothing_visible() {
    let (mut mesh, [a, b, c, d]) = square();
    mesh.add_tri_with_points([a, b, c]).unwrap();
    let mut copy = mesh.clone();
    copy.add_tri_with_points([a, c, d]).unwrap();
    assert_eq!(mesh.face_count(), 1);
    assert_eq!(copy.face_count(), 2);
    assert_eq!(mesh.faces_in_point(d), Ok(vec![]));
}

#[test]
fn render_arrays_draw_each_face_backwards_with_its_normal() {
    let (mut mesh, [a, b, c, d]) = square();
    let first = mesh.add_tri_with_points([a, c, b]).unwrap();
    let second = mesh.add_tri_with_points([a, d, c]).unwrap();
    let arrays = mesh.render_arrays();
    let position = |p: PointHandle| mesh.point_position(p).unwrap();
    assert_eq!(
        arrays.vertices,
        vec![position(b), position(c), position(a), position(c), position(d), position(a)]
    );
    let up = mesh.get_face_normal(first).unwrap();
    assert_eq!(mesh.get_face_normal(second), Ok(up));
    assert_eq!(arrays.normals, vec![up; 6]);
    assert_eq!(arrays.indices, vec![0, 1, 2, 3, 4, 5]);
    let empty = OneiroiMesh::default().render_arrays();
    assert!(empty.vertices.is_empty() && empty.normals.is_empty() && empty.indices.is_empty());
}

#[test]
fn an_edge_is_the_same_whichever_end_comes_first() {
    let (mut mesh, [a, b, c, _]) = square();
    assert_eq!(EdgeHandle::new((a, b)), EdgeHandle::new((b, a)));
    assert_eq!(EdgeHandle::new((c, a)).ends(), (a, c));
    assert_eq!(EdgeHandle::new((a, a)).ends(), (a, a));
    let face = mesh.add_tri_with_points([a, b, c]).unwrap();
    assert_eq!(mesh.points_in_edge(EdgeHandle::new((b, a))), Ok([a, b]));
    assert_eq!(mesh.points_in_edge(EdgeHandle::new((a, b))), Ok([a, b]));
    assert_eq!(mesh.faces_in_edge(EdgeHandle::new((c, b))), Ok((Some(face), None)));
    assert!(mesh.edges_in_face(face).unwrap().contains(&EdgeHandle::new((c, a))));
}

#[test]
fn the_two_faces_of_an_edge_are_different_faces() {
    let (mut mesh, [a, b, c, d]) = square();
    let first = mesh.add_tri_with_points([a, b, c]).unwrap();
    let second = mesh.add_tri_with_points([a, c, d]).unwrap();
    let shared = EdgeHandle::new((c, a));
    assert_eq!(mesh.faces_in_edge(shared), Ok((Some(first), Some(second))));
    assert_ne!(first, second);
    for index in 1..=mesh.face_count() {
        for edge in mesh.edges_in_face(FaceHandle::new(index)).unwrap() {
            let (one, other) = mesh.faces_in_edge(edge).unwrap();
            assert!(one.is_some());
            assert_ne!(one, other);
        }
    }
}

#[test]
fn edges_of_a_rebound_face_are_still_read() {
    let (mut mesh, [a, b, c, d]) = square();
    let face = mesh.add_tri_with_points([a, b, c]).unwrap();
    let before = mesh.edges_in_face(face).unwrap();
    mesh.rebind_tri(face, [a, b, d]).unwrap();
    assert_eq!(mesh.edges_in_face(face), Ok(before));
    assert_eq!(
        before,
        [EdgeHandle::new((a, b)), EdgeHandle::new((b, c)), EdgeHandle::new((a, c))]
    );
}
