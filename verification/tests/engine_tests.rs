use glam::Vec3;
use oneiroi::asset::template::{classify, AssetTemplate, NodeClass};
use oneiroi::asset::{Asset, AssetError, Dependency};
use oneiroi::data_types::{
    same_text, DataType, DataTypeInstance, DataTypeType, Property, PropertyError, PropertyMetadata,
    Scalar, Selection,
};
use oneiroi::graph::{EdgeIndex, NodeIndex};
use oneiroi::mesh::OneiroiMesh;
use oneiroi::script::OneiroiScript;

fn expose(name: &str, property: &str) -> Dependency {
    Dependency::Expose { name: name.to_string(), target_property: property.to_string() }
}

#[test]
fn nodes_are_classified_by_what_reaches_them() {
    let mut asset = Asset::default();
    let extrude = asset.add_node("Extrude").unwrap();
    let lonely = asset.add_node("Box").unwrap();
    let upstream = asset.add_node("Cylinder").unwrap();
    asset.add_node_connection(NodeIndex::new(2), 0, extrude, 0).unwrap();
    asset.add_node_connection(upstream, 0, lonely, 0).unwrap();
    asset.try_add_dependency(NodeIndex::new(2), NodeIndex::new(0), expose("size", "size")).unwrap();
    let classes = classify(&asset);
    assert_eq!(classes.len(), 6);
    assert_eq!(classes[2], NodeClass::Dynamic);
    assert_eq!(classes[extrude.index()], NodeClass::Static);
    assert_eq!(classes[1], NodeClass::Static);
    assert_eq!(classes[0], NodeClass::Static);
    assert_eq!(classes[lonely.index()], NodeClass::Const);
    assert_eq!(classes[upstream.index()], NodeClass::Const);
}

#[test]
fn exposing_twice_under_one_name_lets_the_last_edge_count() {
    let mut asset = Asset::default();
    let cylinder = asset.add_node("Cylinder").unwrap();
    asset.try_add_dependency(cylinder, NodeIndex::new(0), expose("amount", "radius")).unwrap();
    asset.try_add_dependency(cylinder, NodeIndex::new(0), expose("amount", "height")).unwrap();
    let template = AssetTemplate::generate(&asset).unwrap();
    let described = template.get_properties();
    assert_eq!(described.len(), 2);
    assert_eq!(described[0].name(), "amount");
    assert_eq!(*described[0].get_type(), DataTypeType::Float);
    assert_eq!(
        template.get_property_index_name("amount"),
        Some((cylinder, "radius".to_string()))
    );
    match described[0].get_default() {
        DataTypeInstance::Float(p) => assert_eq!(p.get_value().lanes().x, 2.0),
        _ => panic!("height is a number"),
    }
    match described[1].get_default() {
        DataTypeInstance::Float(p) => assert_eq!(p.get_value().lanes().x, 0.5),
        _ => panic!("radius is a number"),
    }
}

#[test]
fn a_graph_holds_no_more_nodes_than_it_can_name() {
    let mut asset = Asset::new();
    for _ in 0..65534 {
        asset.add_node("Output").unwrap();
    }
    assert_eq!(asset.get_nodes().len(), 65534);
    assert_eq!(asset.add_node("Output"), Err(AssetError::GraphFull));
    assert_eq!(asset.add_subgraph(), Err(AssetError::GraphFull));
    assert_eq!(asset.add_node("Sphere"), Err(AssetError::UnknownAlias));
    asset.delete_node(NodeIndex::new(77)).unwrap();
    assert_eq!(asset.add_node("Box"), Ok(NodeIndex::new(77)));
    assert_eq!(asset.add_node("Box"), Err(AssetError::GraphFull));
}

#[test]
fn a_graph_holds_no_more_edges_than_it_can_name() {
    let mut asset = Asset::default();
    let from = NodeIndex::new(2);
    let to = NodeIndex::new(1);
    for _ in 1..65535 {
        asset.try_add_dependency(from, to, Dependency::Same).unwrap();
    }
    assert_eq!(asset.try_add_dependency(from, to, Dependency::Same), Err(AssetError::GraphFull));
    assert_eq!(asset.add_node_connection(from, 0, to, 1), Err(AssetError::GraphFull));
    assert_eq!(asset.get_node_connections(), vec![EdgeIndex::new(0)]);
    assert_eq!(asset.delete_connection(from, 0, to, 0), Ok(()));
    assert_eq!(asset.add_node_connection(from, 0, to, 1), Ok(()));
    assert_eq!(asset.get_node_connections(), vec![EdgeIndex::new(0)]);
}

#[test]
fn scripts_keep_their_text_and_take_values() {
    let asset = Asset::default();
    let script: OneiroiScript<Vec3> =
        OneiroiScript::try_parse("Vec3(1,@expose(\"wow\",3),1)", &asset, NodeIndex::new(2)).unwrap();
    assert_eq!(script.get_string(), "Vec3(1,@expose(\"wow\",3),1)");
    assert_eq!(*script.get_value(), Vec3::ZERO);
    match script.get_default_value() {
        DataTypeInstance::Vec3(p) => assert_eq!(*p.get_value(), Vec3::ONE),
        _ => panic!("the default of a scripted vector is a vector"),
    }
    let mut property = Property::Script(script);
    assert_eq!(property.get_script(), Some("Vec3(1,@expose(\"wow\",3),1)".to_string()));
    assert_eq!(property.update(Property::Value(Vec3::new(1.0, 2.0, 3.0))), Ok(()));
    assert_eq!(*property.get_value(), Vec3::new(1.0, 2.0, 3.0));
    assert_eq!(property.get_script(), Some("Vec3(1,@expose(\"wow\",3),1)".to_string()));
    let other = Property::Script(OneiroiScript::with_literal("Vec3(0,0,0)"));
    assert_eq!(property.update(other), Err(PropertyError::ScriptNotSupported));
    assert_eq!(*property.get_value(), Vec3::new(1.0, 2.0, 3.0));
    let meta = property.get_property_meta();
    assert_eq!(*meta.get_type(), DataTypeType::Vec3);
    match meta.get_default() {
        DataTypeInstance::Vec3(p) => assert_eq!(*p.get_value(), Vec3::ONE),
        _ => panic!("the default of a scripted vector is a vector"),
    }

    let number: OneiroiScript<Scalar> = OneiroiScript::with_literal("2*3");
    match number.get_default_value() {
        DataTypeInstance::Float(p) => assert_eq!(p.get_value().lanes().x, 2.0),
        _ => panic!("the default of a scripted number is a number"),
    }
    let mut number = number;
    number.set_new_value(Scalar::from_int(6));
    assert_eq!(number.get_value().lanes().x, 6.0);
    assert_eq!(number.duplicate().get_string(), "2*3");
}

#[test]
fn a_scripted_value_is_not_assigned_to_a_node() {
    let mut asset = Asset::default();
    let scripted = DataTypeInstance::Vec3(Property::Script(OneiroiScript::with_literal("Vec3(2,2,2)")));
    assert_eq!(
        asset.set_node_property(NodeIndex::new(2), "size", scripted),
        Err(AssetError::Property(PropertyError::ScriptNotSupported))
    );
    assert!(!asset.has_changed());
}

#[test]
fn literal_properties_describe_their_type() {
    let property = Property::new(7i64);
    let meta = property.get_property_meta();
    assert_eq!(*meta.get_type(), DataTypeType::Int);
    assert_eq!(meta.name_or_none(), None);
    assert_eq!(property.consume(), 7);
    let value = DataTypeInstance::Bool(Property::new(true));
    assert_eq!(*value.get_property_meta().get_type(), DataTypeType::Bool);
    let mut meta = PropertyMetadata::new("flag", DataTypeType::Bool, value.clone());
    assert_eq!(meta.name(), "flag");
    meta.set_name("other");
    meta.set_default(DataTypeInstance::Bool(Property::new(false)));
    assert_eq!(meta.name(), "other");
    match meta.get_default() {
        DataTypeInstance::Bool(p) => assert!(!*p.get_value()),
        _ => panic!("the default is a boolean"),
    }
    let copy = meta.clone();
    assert_eq!(copy.name(), "other");
}

#[test]
fn types_offer_tag_default_and_script_form() {
    assert_eq!(<Vec3 as DataType>::data_type_type(), DataTypeType::Vec3);
    assert_eq!(<Scalar as DataType>::data_type_type(), DataTypeType::Float);
    assert_eq!(<bool as DataType>::data_type_type(), DataTypeType::Bool);
    assert_eq!(<i64 as DataType>::data_type_type(), DataTypeType::Int);
    assert_eq!(<OneiroiMesh as DataType>::data_type_type(), DataTypeType::Mesh);
    assert_eq!(<Selection as DataType>::data_type_type(), DataTypeType::Selection);
    assert_eq!(<Vec3 as DataType>::default_value(), Vec3::ZERO);
    assert_eq!(<Scalar as DataType>::default_value().lanes().x, 0.0);
    assert_eq!(<i64 as DataType>::default_value(), 0);
    assert!(!<bool as DataType>::default_value());
    assert_eq!(<OneiroiMesh as DataType>::default_value().point_count(), 0);
    assert_eq!(<Selection as DataType>::default_value().get_literal(), "");
    assert_eq!(Vec3::new(1.0, 2.0, 3.0).generate_script(), Some("Vec3(1,2,3)".to_string()));
    assert_eq!(Scalar::from_int(3).generate_script(), Some("3".to_string()));
    assert_eq!(false.generate_script(), Some("false".to_string()));
    assert_eq!(42i64.generate_script(), Some("42".to_string()));
    assert_eq!(OneiroiMesh::default().generate_script(), None);
    assert_eq!(Selection::new("1").generate_script(), None);
    assert_eq!(Selection::new("12").duplicate().get_literal(), "12");
    assert!(same_text("size", "size"));
    assert!(!same_text("size", "Size"));
    assert!(!same_text("size", "sizes"));
}

#[test]
fn values_are_written_as_scripts() {
    let vector = DataTypeInstance::Vec3(Property::new(Vec3::new(-0.5, 10.0, 0.25)));
    assert_eq!(vector.get_expression(), Some("Vec3(-0.5,10,0.25)".to_string()));
    let number = DataTypeInstance::Float(Property::new(Scalar::new(Vec3::new(1.5, 7.0, 9.0))));
    assert_eq!(number.get_expression(), Some("1.5".to_string()));
    assert_eq!(DataTypeInstance::Int(Property::new(-12)).get_expression(), Some("-12".to_string()));
    assert_eq!(DataTypeInstance::Bool(Property::new(false)).get_expression(), Some("false".to_string()));
    let scripted = DataTypeInstance::Bool(Property::Script(OneiroiScript::with_literal("a && b")));
    assert_eq!(scripted.get_expression(), Some("a && b".to_string()));
    let selection = DataTypeInstance::Selection(Property::new(Selection::new("3")));
    assert_eq!(selection.get_expression(), None);
}
