use glam::Vec3;
use oneiroi::asset::instance::{AssetInstance, EvaluationError};
use oneiroi::asset::template::{AssetTemplate, CompileError};
use oneiroi::asset::{Asset, AssetError, Dependency, NodeMetadata};
use oneiroi::data_types::{DataTypeInstance, DataTypeType, Property, PropertyError, Scalar};
use oneiroi::graph::{EdgeIndex, NodeIndex};
use oneiroi::mesh::{OneiroiMesh, PointHandle};
use oneiroi::operations::{Nodes, OperationError};

fn only_mesh(outputs: &Vec<DataTypeInstance>) -> OneiroiMesh {
    assert_eq!(outputs.len(), 1);
    match &outputs[0] {
        DataTypeInstance::Mesh(property) => property.get_value().clone(),
        _ => panic!("not a mesh"),
    }
}

fn vec3(x: f32, y: f32, z: f32) -> DataTypeInstance {
    DataTypeInstance::Vec3(Property::new(Vec3::new(x, y, z)))
}

fn expose(name: &str, property: &str) -> Dependency {
    Dependency::Expose { name: name.to_string(), target_property: property.to_string() }
}

fn exposed_box() -> Asset {
    let mut asset = Asset::default();
    asset.try_add_dependency(NodeIndex::new(2), NodeIndex::new(0), expose("size", "size")).unwrap();
    asset
}

#[test]
fn default_asset_is_a_box_wired_to_an_output() {
    let mut asset = Asset::default();
    assert_eq!(asset.get_nodes(), vec![NodeIndex::new(1), NodeIndex::new(2)]);
    assert!(matches!(asset.get_node(NodeIndex::new(0)).unwrap().node, Nodes::Expose));
    assert!(matches!(asset.get_node(NodeIndex::new(1)).unwrap().node, Nodes::SocketOutput(_)));
    assert!(matches!(asset.get_node(NodeIndex::new(2)).unwrap().node, Nodes::Box(_)));
    let connections = asset.get_node_connections();
    assert_eq!(connections, vec![EdgeIndex::new(0)]);
    assert_eq!(asset.get_edge_endpoints(connections[0]), Some((NodeIndex::new(2), NodeIndex::new(1))));
    let connection = asset.get_connection(connections[0]).unwrap();
    assert!(connection.is_connection());
    assert_eq!(connection.port_from(), 0);
    assert_eq!(connection.port_to(), 0);
    assert_eq!(asset.generation(), 0);

    let mut instance = asset.get_instance().unwrap();
    let template = asset.template().unwrap();
    assert_eq!(template.outputs(), vec![(NodeIndex::new(2), 0, DataTypeType::Mesh)]);
    let outputs = instance.compute(template).unwrap();
    let mesh = only_mesh(&outputs);
    assert_eq!(mesh.face_count(), 12);
    assert_eq!(mesh.point_count(), 8);
}

#[test]
fn cylinder_graph_gives_the_wall_of_a_cylinder() {
    let mut asset = Asset::new();
    let output = asset.add_node("Output").unwrap();
    let cylinder = asset.add_node("Cylinder").unwrap();
    asset
        .set_node_property(cylinder, "segments", DataTypeInstance::Int(Property::new(6)))
        .unwrap();
    asset
        .set_node_property(cylinder, "has_caps", DataTypeInstance::Bool(Property::new(false)))
        .unwrap();
    asset.add_node_connection(cylinder, 0, output, 0).unwrap();
    let mut instance = asset.get_instance().unwrap();
    let outputs = instance.compute(asset.template().unwrap()).unwrap();
    let mesh = only_mesh(&outputs);
    assert_eq!(mesh.point_count(), 12);
    assert_eq!(mesh.face_count(), 12);
}

#[test]
fn writing_an_exposed_property_marks_its_node_and_changes_the_output() {
    let mut asset = exposed_box();
    let mut instance = asset.get_instance().unwrap();
    let template = asset.template().unwrap();
    let described = template.get_properties();
    assert_eq!(described.len(), 1);
    assert_eq!(described[0].name(), "size");
    assert_eq!(*described[0].get_type(), DataTypeType::Vec3);
    assert_eq!(template.get_property_index_name("size"), Some((NodeIndex::new(2), "size".to_string())));
    assert_eq!(template.get_property_index_name("radius"), None);
    assert!(template.get_constant((NodeIndex::new(2), 0)).is_none());

    let first = only_mesh(&instance.compute(template).unwrap());
    assert_eq!(first.point_position(PointHandle::new(1)), Ok(Vec3::new(0.5, 0.5, 0.5)));
    assert!(!instance.is_waiting(NodeIndex::new(2)));

    assert_eq!(instance.try_set_property(template, "size", vec3(2.0, 4.0, 6.0)), Ok(()));
    assert!(instance.is_waiting(NodeIndex::new(2)));
    match instance.try_get_property("size").unwrap() {
        DataTypeInstance::Vec3(property) => assert_eq!(*property.get_value(), Vec3::new(2.0, 4.0, 6.0)),
        _ => panic!("size is a vector"),
    }
    let second = only_mesh(&instance.compute(template).unwrap());
    assert_eq!(second.point_position(PointHandle::new(1)), Ok(Vec3::new(1.0, 2.0, 3.0)));
    assert_eq!(second.point_position(PointHandle::new(7)), Ok(Vec3::new(-1.0, -2.0, -3.0)));
    assert!(!instance.is_waiting(NodeIndex::new(2)));
}

#[test]
fn new_instance_starts_at_the_defaults_and_waits() {
    let mut asset = exposed_box();
    asset.set_node_property(NodeIndex::new(2), "size", vec3(3.0, 3.0, 3.0)).unwrap();
    let instance = asset.get_instance().unwrap();
    assert!(instance.is_waiting(NodeIndex::new(2)));
    assert!(!instance.is_waiting(NodeIndex::new(1)));
    match instance.try_get_property("size").unwrap() {
        DataTypeInstance::Vec3(property) => assert_eq!(*property.get_value(), Vec3::ONE),
        _ => panic!("size is a vector"),
    }
    assert!(matches!(instance.try_get_property("origin"), Err(PropertyError::UnknownProperty)));
    assert_eq!(instance.get_output_sockets(asset.template().unwrap()), vec![DataTypeType::Mesh]);
    assert_eq!(instance.get_input_sockets(), vec![]);
    assert_eq!(instance.static_metadata().color, "#b45309");
}

#[test]
fn instance_turns_down_unknown_and_mistyped_properties() {
    let mut asset = exposed_box();
    let mut instance = asset.get_instance().unwrap();
    let template = asset.template().unwrap();
    instance.compute(template).unwrap();
    assert_eq!(
        instance.try_set_property(template, "height", vec3(1.0, 1.0, 1.0)),
        Err(PropertyError::UnknownProperty)
    );
    let number = DataTypeInstance::Float(Property::new(Scalar::new(Vec3::splat(2.0))));
    assert_eq!(instance.try_set_property(template, "size", number), Err(PropertyError::TypeMismatch));
    assert!(!instance.is_waiting(NodeIndex::new(2)));
    match instance.try_get_property("size").unwrap() {
        DataTypeInstance::Vec3(property) => assert_eq!(*property.get_value(), Vec3::ONE),
        _ => panic!("size is a vector"),
    }
}

#[test]
fn computing_twice_gives_the_same() {
    let mut asset = exposed_box();
    let mut instance = asset.get_instance().unwrap();
    let template = asset.template().unwrap();
    instance.try_set_property(template, "size", vec3(2.0, 2.0, 2.0)).unwrap();
    let first = only_mesh(&instance.compute(template).unwrap());
    let second = only_mesh(&instance.compute(template).unwrap());
    assert_eq!(first.point_count(), second.point_count());
    assert_eq!(first.get_faces(), second.get_faces());
    for index in 1..=first.point_count() {
        let handle = PointHandle::new(index);
        assert_eq!(first.point_position(handle), second.point_position(handle));
    }
}

#[test]
fn compiling_twice_gives_the_same() {
    let asset = Asset::default();
    let first = AssetTemplate::generate(&asset).unwrap();
    let second = AssetTemplate::generate(&asset).unwrap();
    assert_eq!(first.outputs(), second.outputs());
    let a = first.get_constant((NodeIndex::new(2), 0)).unwrap();
    let b = second.get_constant((NodeIndex::new(2), 0)).unwrap();
    let (a, b) = (only_mesh(&vec![a]), only_mesh(&vec![b]));
    assert_eq!(a.get_faces(), b.get_faces());
    assert_eq!(a.point_count(), 8);
    for index in 1..=8 {
        let handle = PointHandle::new(index);
        assert_eq!(a.point_position(handle), b.point_position(handle));
    }
    assert!(first.get_constant((NodeIndex::new(1), 0)).is_none());
    assert!(first.get_constant((NodeIndex::new(2), 1)).is_none());
    assert_eq!(first.get_generation(), 0);
    assert!(!first.is_recomputation_needed(0));
    assert!(first.is_recomputation_needed(1));
}

#[test]
fn second_connection_into_a_port_closes_it() {
    let mut asset = Asset::new();
    let output = asset.add_node("Output").unwrap();
    let first = asset.add_node("Box").unwrap();
    let second = asset.add_node("Box").unwrap();
    let third = asset.add_node("Box").unwrap();
    assert!(asset.allow_connection(first, 0, output, 0));
    assert_eq!(asset.add_node_connection(first, 0, output, 0), Ok(()));
    assert!(!asset.allow_connection(second, 0, output, 0));
    assert_eq!(asset.add_node_connection(second, 0, output, 0), Ok(()));
    assert!(!asset.allow_connection(third, 0, output, 0));
    assert!(asset.allow_connection(third, 0, output, 1));
    assert!(asset.allow_connection(third, 0, first, 0));
    assert!(asset.allow_connection(third, 0, NodeIndex::new(40), 0));
}

#[test]
fn delete_connection_takes_the_newest_wire_into_the_port() {
    let mut asset = Asset::new();
    let output = asset.add_node("Output").unwrap();
    let first = asset.add_node("Box").unwrap();
    let second = asset.add_node("Box").unwrap();
    asset.add_node_connection(first, 0, output, 0).unwrap();
    asset.add_node_connection(second, 0, output, 0).unwrap();
    assert_eq!(asset.delete_connection(second, 0, output, 1), Err(AssetError::MissingEdge));
    assert_eq!(asset.delete_connection(first, 0, output, 0), Ok(()));
    assert_eq!(asset.get_node_connections(), vec![EdgeIndex::new(0)]);
    assert_eq!(asset.get_edge_endpoints(EdgeIndex::new(0)), Some((first, output)));
    assert_eq!(asset.get_edge_endpoints(EdgeIndex::new(1)), None);
    assert!(asset.get_connection(EdgeIndex::new(1)).is_none());
    assert_eq!(asset.delete_connection(first, 0, output, 0), Ok(()));
    assert!(asset.allow_connection(first, 0, output, 0));
    assert_eq!(asset.delete_connection(first, 0, output, 0), Err(AssetError::MissingEdge));
}

#[test]
fn deleting_a_node_keeps_the_other_indices() {
    let mut asset = Asset::default();
    let extra = asset.add_node("Cylinder").unwrap();
    assert_eq!(extra, NodeIndex::new(3));
    let removed = asset.delete_node(NodeIndex::new(2)).unwrap();
    assert!(matches!(removed.node, Nodes::Box(_)));
    assert_eq!(asset.get_nodes(), vec![NodeIndex::new(1), NodeIndex::new(3)]);
    assert!(matches!(asset.get_node(NodeIndex::new(3)).unwrap().node, Nodes::Cylinder(_)));
    assert!(asset.get_node(NodeIndex::new(2)).is_none());
    assert_eq!(asset.get_node_connections(), vec![]);
    assert!(asset.get_connection(EdgeIndex::new(0)).is_none());
    assert!(matches!(asset.delete_node(NodeIndex::new(2)), Err(AssetError::MissingNode)));
    assert!(matches!(asset.delete_node(NodeIndex::new(0)), Err(AssetError::SentinelProtected)));
    let again = asset.add_node("Extrude").unwrap();
    assert_eq!(again, NodeIndex::new(2));
    assert!(matches!(asset.get_node(NodeIndex::new(3)).unwrap().node, Nodes::Cylinder(_)));
}

#[test]
fn edits_are_checked() {
    let mut asset = Asset::default();
    assert!(matches!(asset.add_node("Sphere"), Err(AssetError::UnknownAlias)));
    let ghost = NodeIndex::new(9);
    assert_eq!(asset.add_node_connection(ghost, 0, NodeIndex::new(1), 0), Err(AssetError::MissingNode));
    assert_eq!(asset.add_node_connection(NodeIndex::new(2), 0, ghost, 0), Err(AssetError::MissingNode));
    assert_eq!(
        asset.try_add_dependency(NodeIndex::new(2), NodeIndex::new(1), expose("size", "size")),
        Err(AssetError::ExposeTarget)
    );
    assert_eq!(asset.try_add_dependency(NodeIndex::new(2), NodeIndex::new(1), Dependency::Same), Ok(()));
    assert_eq!(asset.get_node_connections(), vec![EdgeIndex::new(0)]);
    assert_eq!(
        asset.set_node_property(ghost, "size", vec3(1.0, 1.0, 1.0)),
        Err(AssetError::MissingNode)
    );
    assert_eq!(
        asset.set_node_property(NodeIndex::new(2), "radius", vec3(1.0, 1.0, 1.0)),
        Err(AssetError::Property(PropertyError::UnknownProperty))
    );
    assert!(!asset.has_changed());
}

#[test]
fn recompute_compiles_anew_only_after_a_change() {
    let mut asset = Asset::default();
    let mut instance = asset.get_instance().unwrap();
    assert_eq!(asset.recompute(), Ok(()));
    assert_eq!(asset.generation(), 0);
    assert!(!instance.is_dirty(asset.template().unwrap()));

    asset.set_node_property(NodeIndex::new(2), "size", vec3(4.0, 4.0, 4.0)).unwrap();
    assert!(asset.has_changed());
    assert!(asset.get_node(NodeIndex::new(2)).unwrap().metadata.is_dirty());
    assert_eq!(asset.recompute(), Ok(()));
    assert!(!asset.has_changed());
    assert_eq!(asset.generation(), 1);
    let template = asset.template().unwrap();
    assert_eq!(template.get_generation(), 1);
    assert!(instance.is_dirty(template));
    assert!(!instance.is_dirty(template));
    let mesh = only_mesh(&instance.compute(template).unwrap());
    assert_eq!(mesh.point_position(PointHandle::new(1)), Ok(Vec3::new(2.0, 2.0, 2.0)));
}

#[test]
fn constants_flow_along_the_edges() {
    let mut asset = Asset::new();
    let output = asset.add_node("Output").unwrap();
    let source = asset.add_node("Box").unwrap();
    let extrude = asset.add_node("Extrude").unwrap();
    asset.add_node_connection(source, 0, extrude, 0).unwrap();
    asset.add_node_connection(extrude, 0, output, 0).unwrap();
    let template = AssetTemplate::generate(&asset).unwrap();
    assert_eq!(template.outputs(), vec![(extrude, 0, DataTypeType::Mesh)]);
    let mesh = only_mesh(&vec![template.get_constant((extrude, 0)).unwrap()]);
    assert_eq!(mesh.face_count(), 12);
    let instance = AssetInstance::new(&template);
    assert!(!instance.is_waiting(source));
}

#[test]
fn compile_errors_are_reported() {
    let mut asset = Asset::new();
    let first = asset.add_node("Extrude").unwrap();
    let second = asset.add_node("Extrude").unwrap();
    asset.add_node_connection(first, 0, second, 0).unwrap();
    asset.add_node_connection(second, 0, first, 0).unwrap();
    assert_eq!(AssetTemplate::generate(&asset).err(), Some(CompileError::Cycle));
    assert_eq!(asset.get_instance().err(), Some(CompileError::Cycle));
    assert!(asset.template().is_none());

    let mut asset = Asset::new();
    let alone = asset.add_node("Extrude").unwrap();
    assert_eq!(
        AssetTemplate::generate(&asset).err(),
        Some(CompileError::Operation(alone, OperationError::MissingInput))
    );

    let mut asset = exposed_box();
    let extrude = asset.add_node("Extrude").unwrap();
    asset.add_node_connection(NodeIndex::new(2), 0, extrude, 0).unwrap();
    assert_eq!(AssetTemplate::generate(&asset).err(), Some(CompileError::MissingInput(extrude)));

    let mut asset = Asset::default();
    asset.try_add_dependency(NodeIndex::new(2), NodeIndex::new(0), expose("r", "radius")).unwrap();
    assert_eq!(
        AssetTemplate::generate(&asset).err(),
        Some(CompileError::UnknownProperty(NodeIndex::new(2)))
    );

    let mut asset = Asset::default();
    asset.add_node_connection(NodeIndex::new(2), 0, NodeIndex::new(0), 0).unwrap();
    assert_eq!(
        AssetTemplate::generate(&asset).err(),
        Some(CompileError::NotExposed(EdgeIndex::new(1)))
    );

    let mut asset = Asset::default();
    asset.add_node_connection(NodeIndex::new(2), 3, NodeIndex::new(1), 0).unwrap();
    assert_eq!(
        AssetTemplate::generate(&asset).err(),
        Some(CompileError::UnknownPort(NodeIndex::new(2)))
    );
}

#[test]
fn a_property_that_follows_an_exposed_one_makes_its_node_dynamic() {
    let mut asset = exposed_box();
    let other = asset.add_node("Box").unwrap();
    let follows = Dependency::Node {
        target_property: "size".to_string(),
        source_property: "size".to_string(),
    };
    asset.try_add_dependency(NodeIndex::new(2), other, follows).unwrap();
    let template = AssetTemplate::generate(&asset).unwrap();
    let (_, nodes) = template.get_dynamic_graph();
    assert!(nodes[2].is_some());
    assert!(nodes[other.index()].is_some());
    assert!(nodes[1].is_none());
    assert!(nodes[0].is_none());
    assert!(template.get_constant((other, 0)).is_none());
}

#[test]
fn instance_reports_a_missing_output() {
    let mut asset = Asset::new();
    let output = asset.add_node("Output").unwrap();
    let source = asset.add_node("Cylinder").unwrap();
    asset.add_node_connection(source, 0, output, 0).unwrap();
    asset.try_add_dependency(source, NodeIndex::new(0), expose("segments", "segments")).unwrap();
    let mut instance = asset.get_instance().unwrap();
    let template = asset.template().unwrap();
    assert_eq!(instance.compute(template).map(|o| o.len()), Ok(1));
    let none = DataTypeInstance::Int(Property::new(0));
    assert_eq!(instance.try_set_property(template, "segments", none), Ok(()));
    assert_eq!(
        instance.compute(template).err(),
        Some(EvaluationError::Operation(source, OperationError::InvalidSegments))
    );
    assert!(instance.is_waiting(source));
}

#[test]
fn node_metadata_is_kept() {
    let mut meta = NodeMetadata::new(glam::Vec2::new(3.0, 4.0));
    assert_eq!(meta.get_name(), "");
    assert_eq!(meta.get_position(), glam::Vec2::new(3.0, 4.0));
    meta.set_name("wall".to_string());
    meta.set_position(glam::Vec2::new(1.0, 2.0));
    meta.set_dirty();
    assert_eq!(meta.get_name(), "wall");
    assert_eq!(meta.get_position(), glam::Vec2::new(1.0, 2.0));
    assert!(meta.is_dirty());
    let empty = NodeMetadata::empty();
    assert_eq!(empty.get_position(), glam::Vec2::ZERO);
    assert!(!empty.is_dirty());
}

#[test]
fn dependencies_tell_their_kind() {
    let wire = Dependency::Connection([2, 5]);
    assert!(wire.is_connection() && !wire.is_exposed() && !wire.is_node());
    assert_eq!((wire.port_from(), wire.port_to()), (2, 5));
    let shown = expose("width", "size");
    assert!(shown.is_exposed());
    assert_eq!(shown.get_exposed_name(), "width");
    assert_eq!(shown.get_target_property(), "size");
    let runtime = Dependency::Runtime { name: "h".to_string(), target_property: "height".to_string() };
    assert!(runtime.is_exposed());
    assert_eq!(runtime.get_exposed_name(), "h");
    let follows = Dependency::Node {
        target_property: "size".to_string(),
        source_property: "origin".to_string(),
    };
    assert!(follows.is_node() && !follows.is_exposed());
    assert_eq!(follows.get_target_property(), "size");
    assert!(!Dependency::This.is_exposed() && !Dependency::Same.is_connection());
}

#[test]
fn node_records_can_be_replaced() {
    let mut asset = Asset::default();
    let mut record = asset.get_node(NodeIndex::new(2)).unwrap().metadata.clone();
    record.set_name("crate".to_string());
    record.set_position(glam::Vec2::new(10.0, 20.0));
    record.set_dirty();
    assert_eq!(asset.set_node_metadata(NodeIndex::new(2), record), Ok(()));
    let slot = asset.get_node(NodeIndex::new(2)).unwrap();
    assert_eq!(slot.metadata.get_name(), "crate");
    assert_eq!(slot.metadata.get_position(), glam::Vec2::new(10.0, 20.0));
    assert!(matches!(slot.node, Nodes::Box(_)));
    assert!(asset.has_changed());
    assert_eq!(
        asset.set_node_metadata(NodeIndex::new(9), NodeMetadata::empty()),
        Err(AssetError::MissingNode)
    );
    asset.set_metadata(oneiroi::asset::AssetMetadata::new(glam::Vec2::new(1.0, 1.0)));
    assert_eq!(asset.metadata().position(), glam::Vec2::new(1.0, 1.0));
}

#[test]
fn a_write_to_a_node_with_an_incoming_edge_is_not_lost() {
    let mut asset = Asset::new();
    let output = asset.add_node("Output").unwrap();
    let upstream = asset.add_node("Box").unwrap();
    let written = asset.add_node("Box").unwrap();
    asset.add_node_connection(written, 0, output, 0).unwrap();
    asset.try_add_dependency(upstream, written, Dependency::Same).unwrap();
    asset.try_add_dependency(upstream, NodeIndex::new(0), expose("first", "size")).unwrap();
    asset.try_add_dependency(written, NodeIndex::new(0), expose("second", "size")).unwrap();
    let mut instance = asset.get_instance().unwrap();
    let template = asset.template().unwrap();
    let first = only_mesh(&instance.compute(template).unwrap());
    assert_eq!(first.point_position(PointHandle::new(1)), Ok(Vec3::new(0.5, 0.5, 0.5)));

    assert_eq!(instance.try_set_property(template, "second", vec3(8.0, 6.0, 4.0)), Ok(()));
    assert!(instance.is_waiting(written));
    assert!(!instance.is_waiting(upstream));
    let second = only_mesh(&instance.compute(template).unwrap());
    assert_eq!(second.point_position(PointHandle::new(1)), Ok(Vec3::new(4.0, 3.0, 2.0)));
    assert!(!instance.is_waiting(written));
}

#[test]
fn outputs_have_the_types_of_the_wires() {
    let mut asset = exposed_box();
    let cylinder = asset.add_node("Cylinder").unwrap();
    let second = asset.add_node("Output").unwrap();
    asset.add_node_connection(cylinder, 0, second, 0).unwrap();
    let mut instance = asset.get_instance().unwrap();
    let template = asset.template().unwrap();
    let wires = template.outputs();
    let outputs = instance.compute(template).unwrap();
    assert_eq!(wires.len(), 2);
    assert_eq!(outputs.len(), wires.len());
    for (value, wire) in outputs.iter().zip(wires.iter()) {
        assert_eq!(value.get_type(), wire.2);
    }
    assert_eq!(instance.get_output_sockets(template), vec![DataTypeType::Mesh, DataTypeType::Mesh]);
}

#[test]
fn the_next_node_and_edge_of_a_default_asset_get_the_next_indices() {
    let mut asset = Asset::default();
    assert_eq!(asset.add_node("Box"), Ok(NodeIndex::new(3)));
    assert_eq!(asset.add_node_connection(NodeIndex::new(3), 0, NodeIndex::new(1), 1), Ok(()));
    assert_eq!(asset.get_node_connections(), vec![EdgeIndex::new(0), EdgeIndex::new(1)]);
    assert_eq!(asset.get_edge_endpoints(EdgeIndex::new(1)), Some((NodeIndex::new(3), NodeIndex::new(1))));
}

#[test]
fn a_port_is_taken_by_an_edge_into_it() {
    let mut asset = Asset::default();
    let output = NodeIndex::new(1);
    assert!(!asset.allow_connection(NodeIndex::new(2), 0, output, 0));
    let into_port = asset
        .get_node_connections()
        .into_iter()
        .filter(|e| asset.get_edge_endpoints(*e).unwrap().1 == output)
        .filter(|e| asset.get_connection(*e).unwrap().port_to() == 0)
        .count();
    assert_eq!(into_port, 1);
    asset.delete_connection(NodeIndex::new(2), 0, output, 0).unwrap();
    assert!(asset.allow_connection(NodeIndex::new(2), 0, output, 0));
    assert_eq!(asset.get_node_connections(), vec![]);
}
