use glam::Vec3;
use oneiroi::data_types::{
    DataTypeInstance, DataTypeType, Property, PropertyError, Scalar, Selection, SelectionError,
};
use oneiroi::mesh::{FaceHandle, MeshError, OneiroiMesh, PointHandle};
use oneiroi::operations::control_flow::SocketOutputV1;
use oneiroi::operations::modifiers::extrude::ExtrudeV1;
use oneiroi::operations::producers::cuboid::BoxV1;
use oneiroi::operations::producers::cylinder::{angle_of_segment, points_of_segment, CylinderV1};
use oneiroi::operations::{Nodes, Operation, OperationError, PropertyInterface};

fn only_mesh(outputs: Vec<DataTypeInstance>) -> OneiroiMesh {
    assert_eq!(outputs.len(), 1);
    match &outputs[0] {
        DataTypeInstance::Mesh(property) => property.get_value().clone(),
        _ => panic!("not a mesh"),
    }
}

fn vec3(x: f32, y: f32, z: f32) -> DataTypeInstance {
    DataTypeInstance::Vec3(Property::new(Vec3::new(x, y, z)))
}

fn float(x: f32) -> DataTypeInstance {
    DataTypeInstance::Float(Property::new(Scalar::new(Vec3::splat(x))))
}

fn is_manifold(mesh: &OneiroiMesh) -> bool {
    for index in 1..=mesh.face_count() {
        let face = FaceHandle::new(index);
        for edge in mesh.edges_in_face(face).unwrap() {
            let (first, second) = mesh.faces_in_edge(edge).unwrap();
            if first != Some(face) && second != Some(face) {
                return false;
            }
        }
    }
    true
}

#[test]
fn compute_box() {
    let mesh = only_mesh(BoxV1::default().compute(vec![]).unwrap());
    assert_eq!(mesh.point_count(), 8);
    assert_eq!(mesh.face_count(), 12);
    let expected = [
        Vec3::new(0.5, 0.5, 0.5),
        Vec3::new(0.5, 0.5, -0.5),
        Vec3::new(0.5, -0.5, 0.5),
        Vec3::new(0.5, -0.5, -0.5),
        Vec3::new(-0.5, 0.5, 0.5),
        Vec3::new(-0.5, -0.5, 0.5),
        Vec3::new(-0.5, -0.5, -0.5),
        Vec3::new(-0.5, 0.5, -0.5),
    ];
    for (i, position) in expected.iter().enumerate() {
        assert_eq!(mesh.point_position(PointHandle::new(i + 1)), Ok(*position));
    }
    let first = mesh.points_in_face(FaceHandle::new(1)).unwrap();
    assert_eq!([first[0].raw(), first[1].raw(), first[2].raw()], [2, 1, 4]);
    let last = mesh.points_in_face(FaceHandle::new(12)).unwrap();
    assert_eq!([last[0].raw(), last[1].raw(), last[2].raw()], [6, 7, 4]);
    assert_eq!(mesh.get_face_normal(FaceHandle::new(1)), Ok(Vec3::new(1.0, 0.0, 0.0)));
    assert!(is_manifold(&mesh));
    for index in 1..=8 {
        assert!(mesh.faces_in_point(PointHandle::new(index)).unwrap().len() >= 3);
    }
}

#[test]
fn compute_cylinder() {
    let mesh = only_mesh(CylinderV1::default().compute(vec![]).unwrap());
    assert_eq!(mesh.point_count(), 12);
    assert_eq!(mesh.face_count(), 12);
    assert_eq!(mesh.point_position(PointHandle::new(1)), Ok(Vec3::new(0.5, 2.0, 0.0)));
    let below = mesh.point_position(PointHandle::new(2)).unwrap();
    assert_eq!(below.x, 0.5);
    assert_eq!(below.y, 0.0);
    assert_eq!(below.z, 0.0);
    for index in 1..=12 {
        let p = mesh.point_position(PointHandle::new(index)).unwrap();
        assert_eq!(p.y, if index % 2 == 1 { 2.0 } else { 0.0 });
        assert!(((p.x * p.x + p.z * p.z).sqrt() - 0.5).abs() < 1e-6);
    }
    let fourth = mesh.point_position(PointHandle::new(7)).unwrap();
    assert!((fourth.x + 0.5).abs() < 1e-6);
    assert!(fourth.z.abs() < 1e-6);
    let closing = mesh.points_in_face(FaceHandle::new(1)).unwrap();
    assert_eq!([closing[0].raw(), closing[1].raw(), closing[2].raw()], [11, 12, 1]);
    let second = mesh.points_in_face(FaceHandle::new(2)).unwrap();
    assert_eq!([second[0].raw(), second[1].raw(), second[2].raw()], [1, 12, 2]);
    let strip = mesh.points_in_face(FaceHandle::new(4)).unwrap();
    assert_eq!([strip[0].raw(), strip[1].raw(), strip[2].raw()], [3, 2, 4]);
    assert!(is_manifold(&mesh));
}

#[test]
fn box_size_scales_the_corners() {
    let mut node = BoxV1::default();
    assert_eq!(node.try_set_property("size", vec3(2.0, 4.0, 6.0)), Ok(()));
    let mesh = only_mesh(node.compute(vec![]).unwrap());
    assert_eq!(mesh.point_position(PointHandle::new(1)), Ok(Vec3::new(1.0, 2.0, 3.0)));
    assert_eq!(mesh.point_position(PointHandle::new(7)), Ok(Vec3::new(-1.0, -2.0, -3.0)));
    match node.try_get_property("size").unwrap() {
        DataTypeInstance::Vec3(property) => {
            assert_eq!(*property.get_value(), Vec3::new(2.0, 4.0, 6.0))
        }
        _ => panic!("size is a vector"),
    }
}

#[test]
fn box_turns_down_what_it_does_not_know() {
    let mut node = BoxV1::default();
    assert_eq!(node.try_set_property("colour", vec3(1.0, 1.0, 1.0)), Err(PropertyError::UnknownProperty));
    assert_eq!(node.try_set_property("size", float(1.0)), Err(PropertyError::TypeMismatch));
    assert_eq!(node.try_set_property("subdivisions", vec3(2.0, 2.0, 2.0)), Err(PropertyError::UnknownProperty));
    assert!(matches!(node.try_get_property("subdivisions"), Err(PropertyError::UnknownProperty)));
    assert!(node.try_get_property("origin").is_ok());
    let described = node.get_properties();
    assert_eq!(described.len(), 2);
    assert_eq!(described[0].name(), "size");
    assert_eq!(*described[0].get_type(), DataTypeType::Vec3);
    assert_eq!(described[1].name(), "origin");
    match described[0].get_default() {
        DataTypeInstance::Vec3(property) => assert_eq!(*property.get_value(), Vec3::ONE),
        _ => panic!("default of size is a vector"),
    }
    match described[1].get_default() {
        DataTypeInstance::Vec3(property) => assert_eq!(*property.get_value(), Vec3::ZERO),
        _ => panic!("default of origin is a vector"),
    }
}

#[test]
fn cylinder_segments_decide_the_counts() {
    let mut node = CylinderV1::default();
    assert_eq!(node.try_set_property("segments", DataTypeInstance::Int(Property::new(500))), Ok(()));
    let mesh = only_mesh(node.compute(vec![]).unwrap());
    assert_eq!(mesh.point_count(), 1000);
    assert_eq!(mesh.face_count(), 1000);
    assert!(is_manifold(&mesh));
    assert_eq!(node.try_set_property("segments", DataTypeInstance::Int(Property::new(2))), Ok(()));
    let mesh = only_mesh(node.compute(vec![]).unwrap());
    assert_eq!(mesh.point_count(), 4);
    assert_eq!(mesh.face_count(), 4);
}

#[test]
fn cylinder_needs_segments() {
    let mut node = CylinderV1::default();
    assert_eq!(node.try_set_property("segments", DataTypeInstance::Int(Property::new(0))), Ok(()));
    assert_eq!(node.compute(vec![]).err(), Some(OperationError::InvalidSegments));
    assert_eq!(node.try_set_property("segments", DataTypeInstance::Int(Property::new(-3))), Ok(()));
    assert_eq!(node.compute(vec![]).err(), Some(OperationError::InvalidSegments));
    assert_eq!(node.try_set_property("segments", DataTypeInstance::Int(Property::new(1))), Ok(()));
    assert_eq!(node.compute(vec![]).err(), Some(OperationError::Mesh(MeshError::DuplicatePoint)));
}

#[test]
fn cylinder_properties_are_typed() {
    let mut node = CylinderV1::default();
    assert_eq!(node.try_set_property("radius", float(2.0)), Ok(()));
    assert_eq!(node.try_set_property("height", float(3.0)), Ok(()));
    assert_eq!(node.try_set_property("has_caps", DataTypeInstance::Bool(Property::new(true))), Ok(()));
    assert_eq!(node.try_set_property("radius", vec3(1.0, 1.0, 1.0)), Err(PropertyError::TypeMismatch));
    assert_eq!(node.try_set_property("segments", float(3.0)), Err(PropertyError::TypeMismatch));
    assert_eq!(node.try_set_property("has_caps", float(3.0)), Err(PropertyError::TypeMismatch));
    assert_eq!(node.try_set_property("caps", float(3.0)), Err(PropertyError::UnknownProperty));
    let mesh = only_mesh(node.compute(vec![]).unwrap());
    assert_eq!(mesh.point_count(), 12);
    assert_eq!(mesh.face_count(), 12);
    assert_eq!(mesh.point_position(PointHandle::new(1)), Ok(Vec3::new(2.0, 3.0, 0.0)));
    let names: Vec<String> = node.get_properties().iter().map(|m| m.name().to_string()).collect();
    assert_eq!(names, vec!["radius", "height", "segments", "has_caps"]);
    match node.try_get_property("has_caps").unwrap() {
        DataTypeInstance::Bool(property) => assert!(*property.get_value()),
        _ => panic!("has_caps is a boolean"),
    }
}

#[test]
fn extrude_hands_the_mesh_on() {
    let input = BoxV1::default().compute(vec![]).unwrap();
    let node = ExtrudeV1::default();
    let mesh = only_mesh(node.compute(vec![&input[0]]).unwrap());
    assert_eq!(mesh.point_count(), 8);
    assert_eq!(mesh.face_count(), 12);
    assert_eq!(mesh.point_position(PointHandle::new(1)), Ok(Vec3::new(0.5, 0.5, 0.5)));
}

#[test]
fn extrude_checks_input_and_selection() {
    let mut node = ExtrudeV1::default();
    assert_eq!(node.compute(vec![]).err(), Some(OperationError::MissingInput));
    let number = float(1.0);
    assert_eq!(node.compute(vec![&number]).err(), Some(OperationError::WrongInput));
    let input = BoxV1::default().compute(vec![]).unwrap();
    let query = DataTypeInstance::Selection(Property::new(Selection::new("front")));
    assert_eq!(node.try_set_property("query", query), Ok(()));
    assert_eq!(node.compute(vec![&input[0]]).err(), Some(OperationError::InvalidSelection));
    assert_eq!(node.try_set_property("amount", float(2.0)), Ok(()));
    assert_eq!(node.try_set_property("amount", vec3(1.0, 1.0, 1.0)), Err(PropertyError::TypeMismatch));
    assert_eq!(node.try_set_property("merge", float(2.0)), Err(PropertyError::UnknownProperty));
}

#[test]
fn selection_names_one_face() {
    assert_eq!(Selection::new("1").try_get(), Ok(vec![FaceHandle::new(1)]));
    assert_eq!(Selection::new("+12").try_get(), Ok(vec![FaceHandle::new(12)]));
    assert_eq!(Selection::new("007").try_get(), Ok(vec![FaceHandle::new(7)]));
    assert_eq!(Selection::new("4294967295").try_get(), Ok(vec![FaceHandle::new(4294967295)]));
    assert_eq!(Selection::new("4294967296").try_get(), Err(SelectionError::NotAFace));
    assert_eq!(Selection::new("0").try_get(), Err(SelectionError::NotAFace));
    assert_eq!(Selection::new("").try_get(), Err(SelectionError::NotAFace));
    assert_eq!(Selection::new("+").try_get(), Err(SelectionError::NotAFace));
    assert_eq!(Selection::new("-1").try_get(), Err(SelectionError::NotAFace));
    assert_eq!(Selection::new("1a").try_get(), Err(SelectionError::NotAFace));
    assert_eq!(Selection::new("99999999999999999999999").try_get(), Err(SelectionError::NotAFace));
    assert_eq!(Selection::new("12").get_literal(), "12");
}

#[test]
fn output_socket_computes_nothing() {
    let mut node = SocketOutputV1::default();
    assert_eq!(node.compute(vec![]).err(), Some(OperationError::NotComputable));
    assert_eq!(node.get_input_sockets(), vec![DataTypeType::Omni]);
    assert_eq!(node.get_output_sockets(), vec![]);
    assert_eq!(node.try_set_property("anything", float(1.0)), Ok(()));
    assert!(matches!(node.try_get_property("anything"), Err(PropertyError::UnknownProperty)));
    assert_eq!(node.get_properties().len(), 0);
    assert_eq!(node.static_metadata().color, "#86198f");
}

#[test]
fn nodes_are_made_by_alias() {
    assert!(matches!(Nodes::from_alias("Box"), Some(Nodes::Box(_))));
    assert!(matches!(Nodes::from_alias("Cylinder"), Some(Nodes::Cylinder(_))));
    assert!(matches!(Nodes::from_alias("Extrude"), Some(Nodes::Extrude(_))));
    assert!(matches!(Nodes::from_alias("Output"), Some(Nodes::SocketOutput(_))));
    assert!(matches!(Nodes::from_alias("Input"), Some(Nodes::SocketInput(_))));
    assert!(Nodes::from_alias("Sphere").is_none());
    let output = Nodes::from_alias("Output").unwrap();
    assert!(output.is_output_node());
    let node = Nodes::from_alias("Box").unwrap();
    assert!(!node.is_output_node());
    assert_eq!(node.get_output_sockets(), vec![DataTypeType::Mesh]);
    assert_eq!(node.get_input_sockets(), vec![]);
    assert_eq!(node.static_metadata().color, "#15803d");
    assert_eq!(Nodes::from_alias("Extrude").unwrap().static_metadata().color, "#4338ca");
    assert_eq!(Nodes::Expose.compute(vec![]).err(), Some(OperationError::NotComputable));
}

#[test]
fn values_know_their_type() {
    assert_eq!(vec3(1.0, 2.0, 3.0).get_type(), DataTypeType::Vec3);
    assert_eq!(float(1.0).get_type(), DataTypeType::Float);
    assert_eq!(DataTypeInstance::Bool(Property::new(true)).get_type(), DataTypeType::Bool);
    assert_eq!(DataTypeInstance::Int(Property::new(3)).get_type(), DataTypeType::Int);
    assert_eq!(DataTypeInstance::Mesh(Property::new(OneiroiMesh::default())).get_type(), DataTypeType::Mesh);
    assert_eq!(
        DataTypeInstance::Selection(Property::new(Selection::new("1"))).get_type(),
        DataTypeType::Selection
    );
    assert!(vec3(1.0, 2.0, 3.0).inner_vec3().is_ok());
    assert!(matches!(vec3(1.0, 2.0, 3.0).inner_f32(), Err(PropertyError::TypeMismatch)));
    assert!(float(1.0).inner_f32().is_ok());
    assert!(matches!(float(1.0).inner_int(), Err(PropertyError::TypeMismatch)));
    assert!(matches!(float(1.0).inner_bool(), Err(PropertyError::TypeMismatch)));
    assert!(matches!(float(1.0).inner_selection(), Err(PropertyError::TypeMismatch)));
    assert!(matches!(float(1.0).inner_mesh(), Err(PropertyError::TypeMismatch)));
    assert_eq!(vec3(1.0, 2.5, 3.0).get_expression(), Some("Vec3(1,2.5,3)".to_string()));
    assert_eq!(float(0.5).get_expression(), Some("0.5".to_string()));
    assert_eq!(DataTypeInstance::Int(Property::new(-3)).get_expression(), Some("-3".to_string()));
    assert_eq!(DataTypeInstance::Bool(Property::new(true)).get_expression(), Some("true".to_string()));
    assert_eq!(DataTypeInstance::Mesh(Property::new(OneiroiMesh::default())).get_expression(), None);
}

#[test]
fn colours_of_types() {
    assert_eq!(DataTypeType::Omni.get_color(), Vec3::new(134.0, 25.0, 143.0) / 256.0);
    assert_eq!(DataTypeType::Mesh.get_color(), Vec3::new(59.0, 230.0, 121.0) / 256.0);
}

#[test]
fn segment_angles_are_shares_of_the_full_turn() {
    let quarter = angle_of_segment(4, 1);
    assert!((quarter.x - std::f32::consts::FRAC_PI_2).abs() < 1e-6);
    assert_eq!(quarter.x, quarter.y);
    assert_eq!(quarter.y, quarter.z);
    assert_eq!(angle_of_segment(6, 0), Vec3::ZERO);
    assert_eq!(angle_of_segment(6, 3).x, 180.0f32.to_radians());
    assert_eq!(angle_of_segment(6, 1).x, 60.0f32.to_radians());
}

#[test]
fn segment_points_stand_above_each_other() {
    let radius = Scalar::new(Vec3::splat(2.0));
    let height = Scalar::new(Vec3::splat(3.0));
    let (upper, lower) = points_of_segment(&radius, &height, Vec3::splat(1.0), Vec3::splat(0.5));
    assert_eq!(upper, Vec3::new(2.0, 3.0, -1.0));
    assert_eq!(lower, Vec3::new(2.0, 0.0, -1.0));
    let (upper, lower) = points_of_segment(&radius, &height, Vec3::splat(0.0), Vec3::splat(-1.0));
    assert_eq!(upper, Vec3::new(0.0, 3.0, 2.0));
    assert_eq!(lower, Vec3::new(0.0, 0.0, 2.0));
}

#[test]
fn cylinder_points_follow_radius_and_height() {
    let mut node = CylinderV1::default();
    assert_eq!(node.try_set_property("segments", DataTypeInstance::Int(Property::new(4))), Ok(()));
    assert_eq!(node.try_set_property("radius", float(2.0)), Ok(()));
    assert_eq!(node.try_set_property("height", float(3.0)), Ok(()));
    let mesh = only_mesh(node.compute(vec![]).unwrap());
    assert_eq!(mesh.point_count(), 8);
    for segment in 0..4i64 {
        let angle = angle_of_segment(4, segment);
        let radius = Scalar::new(Vec3::splat(2.0));
        let height = Scalar::new(Vec3::splat(3.0));
        let (upper, lower) = points_of_segment(&radius, &height, angle.cos(), angle.sin());
        let place = (2 * segment + 1) as usize;
        assert_eq!(mesh.point_position(PointHandle::new(place)), Ok(upper));
        assert_eq!(mesh.point_position(PointHandle::new(place + 1)), Ok(lower));
        assert_eq!(upper.y, 3.0);
        assert_eq!(lower.y, 0.0);
        assert_eq!(upper.x, lower.x);
        assert_eq!(upper.z, lower.z);
    }
    let quarter = mesh.point_position(PointHandle::new(3)).unwrap();
    assert!(quarter.x.abs() < 1e-6);
    assert!((quarter.z + 2.0).abs() < 1e-6);
}
