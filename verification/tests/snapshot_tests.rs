use glam::Vec3;
use oneiroi::asset::snapshot::{AssetSnapshot, EdgeRecord, ImportError};
use oneiroi::asset::{Asset, AssetMetadata, Dependency, EmbeddedAsset, NodeMetadata, NodeSlot};
use oneiroi::data_types::{DataTypeInstance, DataTypeType, Property};
use oneiroi::graph::{EdgeIndex, NodeIndex};
use oneiroi::mesh::PointHandle;
use oneiroi::operations::{Nodes, Operation};
use oneiroi::serialization::{export_asset_bundled, export_asset_v1, import_asset_v1};

fn slot(alias: &str) -> Option<NodeSlot> {
    Some(NodeSlot { metadata: NodeMetadata::empty(), node: Nodes::from_alias(alias).unwrap() })
}

fn sentinel() -> Option<NodeSlot> {
    Some(NodeSlot { metadata: NodeMetadata::empty(), node: Nodes::Expose })
}

fn wire(source: usize, target: usize) -> Option<EdgeRecord> {
    Some(EdgeRecord {
        source: NodeIndex::new(source),
        target: NodeIndex::new(target),
        dependency: Dependency::Connection([0, 0]),
    })
}

fn tree(nodes: Vec<Option<NodeSlot>>, edges: Vec<Option<EdgeRecord>>) -> AssetSnapshot {
    AssetSnapshot {
        metadata: AssetMetadata::new(glam::Vec2::ZERO),
        nodes,
        edges,
        exposed_property_order: vec![],
        sub_assets: vec![],
    }
}

#[test]
fn default_asset_survives_the_round_trip() {
    let asset = Asset::default();
    let snapshot = export_asset_v1(&asset);
    assert_eq!(snapshot.nodes.len(), 3);
    assert_eq!(snapshot.edges.len(), 1);
    let mut restored = import_asset_v1(snapshot).unwrap();
    assert_eq!(restored.get_nodes(), vec![NodeIndex::new(1), NodeIndex::new(2)]);
    assert!(matches!(restored.get_node(NodeIndex::new(0)).unwrap().node, Nodes::Expose));
    assert!(matches!(restored.get_node(NodeIndex::new(1)).unwrap().node, Nodes::SocketOutput(_)));
    assert!(matches!(restored.get_node(NodeIndex::new(2)).unwrap().node, Nodes::Box(_)));
    assert_eq!(restored.get_node_connections(), vec![EdgeIndex::new(0)]);
    assert_eq!(
        restored.get_edge_endpoints(EdgeIndex::new(0)),
        Some((NodeIndex::new(2), NodeIndex::new(1)))
    );
    let connection = restored.get_connection(EdgeIndex::new(0)).unwrap();
    assert_eq!((connection.port_from(), connection.port_to()), (0, 0));
    assert_eq!(restored.generation(), 0);
    assert!(restored.template().is_none());
    let mut instance = restored.get_instance().unwrap();
    let outputs = instance.compute(restored.template().unwrap()).unwrap();
    assert_eq!(outputs.len(), 1);
}

#[test]
fn round_trip_keeps_indices_properties_and_holes() {
    let mut asset = Asset::default();
    let cylinder = asset.add_node("Cylinder").unwrap();
    let extrude = asset.add_node("Extrude").unwrap();
    asset.add_node_connection(cylinder, 0, extrude, 0).unwrap();
    asset.add_node_connection(extrude, 0, NodeIndex::new(1), 0).unwrap();
    asset
        .try_add_dependency(
            NodeIndex::new(2),
            NodeIndex::new(0),
            Dependency::Expose { name: "width".to_string(), target_property: "size".to_string() },
        )
        .unwrap();
    asset
        .set_node_property(
            NodeIndex::new(2),
            "size",
            DataTypeInstance::Vec3(Property::new(Vec3::new(2.0, 3.0, 4.0))),
        )
        .unwrap();
    asset.delete_node(cylinder).unwrap();
    asset.set_exposed_property_order(vec!["width".to_string()]);

    let snapshot = export_asset_v1(&asset);
    assert_eq!(snapshot.nodes.len(), 5);
    assert!(snapshot.nodes[3].is_none());
    assert!(snapshot.edges[1].is_none());
    let restored = import_asset_v1(snapshot).unwrap();
    assert_eq!(restored.get_nodes(), asset.get_nodes());
    assert_eq!(restored.get_nodes(), vec![NodeIndex::new(1), NodeIndex::new(2), extrude]);
    assert_eq!(restored.get_node_connections(), asset.get_node_connections());
    for index in [0, 2, 3] {
        let edge = EdgeIndex::new(index);
        assert_eq!(restored.get_edge_endpoints(edge), asset.get_edge_endpoints(edge));
        assert!(restored.get_edge_endpoints(edge).is_some());
    }
    assert_eq!(restored.get_edge_endpoints(EdgeIndex::new(1)), None);
    let exposed = restored.get_connection(EdgeIndex::new(3)).unwrap();
    assert_eq!(exposed.get_exposed_name(), "width");
    assert_eq!(restored.exposed_property_order(), vec!["width".to_string()]);
    match restored.get_node(NodeIndex::new(2)).unwrap().node.compute(vec![]).unwrap().remove(0) {
        DataTypeInstance::Mesh(mesh) => assert_eq!(
            mesh.get_value().point_position(PointHandle::new(1)),
            Ok(Vec3::new(1.0, 1.5, 2.0))
        ),
        _ => panic!("a box gives a mesh"),
    }
    assert!(asset.has_changed());
    assert!(!restored.has_changed());
}

#[test]
fn import_checks_the_tree() {
    assert_eq!(import_asset_v1(tree(vec![], vec![])).err(), Some(ImportError::NoSentinel));
    assert_eq!(import_asset_v1(tree(vec![None], vec![])).err(), Some(ImportError::NoSentinel));
    assert_eq!(import_asset_v1(tree(vec![slot("Box")], vec![])).err(), Some(ImportError::NoSentinel));
    assert_eq!(
        import_asset_v1(tree(vec![slot("Box"), sentinel()], vec![])).err(),
        Some(ImportError::NoSentinel)
    );
    assert_eq!(
        import_asset_v1(tree(vec![sentinel(), slot("Box"), sentinel(), sentinel()], vec![])).err(),
        Some(ImportError::SecondSentinel(NodeIndex::new(2)))
    );
    assert_eq!(
        import_asset_v1(tree(vec![sentinel(), slot("Box"), None], vec![wire(1, 0), wire(1, 2)])).err(),
        Some(ImportError::DanglingEdge(EdgeIndex::new(1)))
    );
    assert_eq!(
        import_asset_v1(tree(vec![sentinel(), slot("Box")], vec![None, wire(5, 1)])).err(),
        Some(ImportError::DanglingEdge(EdgeIndex::new(1)))
    );
    let exposing = Some(EdgeRecord {
        source: NodeIndex::new(1),
        target: NodeIndex::new(2),
        dependency: Dependency::Runtime { name: "s".to_string(), target_property: "size".to_string() },
    });
    assert_eq!(
        import_asset_v1(tree(vec![sentinel(), slot("Box"), slot("Box")], vec![exposing])).err(),
        Some(ImportError::ExposeTarget(EdgeIndex::new(0)))
    );
    let many = (0..65536).map(|_| None).collect();
    assert_eq!(import_asset_v1(tree(vec![sentinel()], many)).err(), Some(ImportError::TooLarge));
}

#[test]
fn import_accepts_a_tree_with_holes() {
    let nodes = vec![sentinel(), None, slot("Output"), None, slot("Cylinder")];
    let edges = vec![None, None, wire(4, 2)];
    let mut asset = import_asset_v1(tree(nodes, edges)).unwrap();
    assert_eq!(asset.get_nodes(), vec![NodeIndex::new(2), NodeIndex::new(4)]);
    assert_eq!(asset.get_node_connections(), vec![EdgeIndex::new(2)]);
    assert!(!asset.allow_connection(NodeIndex::new(4), 0, NodeIndex::new(2), 0));
    let mut instance = asset.get_instance().unwrap();
    let template = asset.template().unwrap();
    assert_eq!(template.outputs(), vec![(NodeIndex::new(4), 0, DataTypeType::Mesh)]);
    assert_eq!(instance.compute(template).unwrap().len(), 1);
    let next = asset.add_node("Box").unwrap();
    assert!(next == NodeIndex::new(1) || next == NodeIndex::new(3));
}

#[test]
fn embedding_adds_a_node_and_keeps_the_asset() {
    let mut asset = Asset::default();
    let node = asset.add_node("EmbeddedAsset").unwrap();
    assert_eq!(node, NodeIndex::new(3));
    let slot = asset.get_node(node).unwrap();
    assert_eq!(slot.metadata.get_name(), "EmbeddedAsset");
    assert!(matches!(slot.node, Nodes::EmbeddedAsset(_)));
    assert_eq!(slot.node.get_output_sockets(), vec![DataTypeType::Mesh]);
    match slot.node.compute(vec![]).unwrap().remove(0) {
        DataTypeInstance::Mesh(mesh) => assert_eq!(mesh.get_value().face_count(), 12),
        _ => panic!("the embedded asset hands out a mesh"),
    }
    let embedded = asset.sub_assets();
    assert_eq!(embedded.len(), 1);
    assert_eq!(embedded[0].graph_nodes(), vec![node]);
    assert!(matches!(embedded[0], EmbeddedAsset::Internal(_, _)));
    let second = asset.add_subgraph().unwrap();
    assert_eq!(second, NodeIndex::new(4));
    assert_eq!(asset.sub_assets().len(), 2);

    let output = NodeIndex::new(1);
    asset.delete_connection(NodeIndex::new(2), 0, output, 0).unwrap();
    asset.add_node_connection(node, 0, output, 0).unwrap();
    let mut instance = asset.get_instance().unwrap();
    let template = asset.template().unwrap();
    assert_eq!(template.outputs(), vec![(node, 0, DataTypeType::Mesh)]);
    assert_eq!(instance.compute(template).unwrap().len(), 1);

    let restored = import_asset_v1(export_asset_v1(&asset)).unwrap();
    assert_eq!(restored.sub_assets().len(), 2);
    assert_eq!(restored.sub_assets()[1].graph_nodes(), vec![second]);
}

#[test]
fn there_is_nothing_to_bundle() {
    export_asset_bundled();
}

#[test]
fn a_restored_graph_lists_the_newest_edge_first() {
    let mut asset = Asset::new();
    let output = asset.add_node("Output").unwrap();
    let first = asset.add_node("Box").unwrap();
    let second = asset.add_node("Cylinder").unwrap();
    asset.add_node_connection(first, 0, output, 0).unwrap();
    asset.add_node_connection(second, 0, output, 0).unwrap();
    asset.delete_connection(second, 0, output, 0).unwrap();
    asset.add_node_connection(second, 0, output, 1).unwrap();
    asset.add_node_connection(second, 0, output, 0).unwrap();
    let mut restored = import_asset_v1(export_asset_v1(&asset)).unwrap();
    assert_eq!(restored.get_node_connections(), asset.get_node_connections());
    assert_eq!(restored.delete_connection(first, 0, output, 0), Ok(()));
    assert_eq!(restored.get_edge_endpoints(EdgeIndex::new(2)), None);
    assert_eq!(restored.get_edge_endpoints(EdgeIndex::new(0)), Some((first, output)));
    let mut instance = restored.get_instance().unwrap();
    let template = restored.template().unwrap();
    assert_eq!(
        template.outputs(),
        vec![(second, 0, DataTypeType::Mesh), (first, 0, DataTypeType::Mesh)]
    );
    assert_eq!(instance.compute(template).unwrap().len(), 2);
}

#[test]
fn a_reference_keeps_its_path_and_identifier() {
    let named = oneiroi::asset::AssetReference::new("res://wall".to_string(), Some("uid-7".to_string()));
    assert_eq!(named.path(), "res://wall");
    assert_eq!(named.uid(), Some(&"uid-7".to_string()));
    let plain = oneiroi::asset::AssetReference::new("res://floor".to_string(), None);
    assert_eq!(plain.path(), "res://floor");
    assert_eq!(plain.uid(), None);
}
