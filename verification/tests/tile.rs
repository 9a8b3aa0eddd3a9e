use std::collections::HashMap;
use mlt::geom::{Coord32, Geom32};
use mlt::staged::StagedProperty;
use mlt::tile::{build_column_permuted, stage_permuted, PropValue, TileFeature};

fn feature(props: Vec<PropValue>) -> TileFeature {
    TileFeature {
        id: None,
        geometry: Geom32::Point(Coord32 { x: 0, y: 0 }),
        properties: props,
    }
}

#[test]
fn column_type_comes_from_first_present_property() {
    let features = vec![
        feature(vec![]),
        feature(vec![PropValue::Bool(None)]),
        feature(vec![PropValue::Bool(Some(false))]),
        feature(vec![PropValue::I32(Some(3))]),
    ];
    let col = build_column_permuted("flag".to_string(), 0, &features, &[0, 1, 2, 3]);
    match col {
        StagedProperty::Bool(c) => {
            assert_eq!(c.name, "flag");
            assert_eq!(c.values, vec![None, None, Some(false), None]);
        }
        _ => panic!("expected a bool column"),
    }
}

#[test]
fn column_follows_permutation_order() {
    let features = vec![
        feature(vec![PropValue::U8(Some(1)), PropValue::F64(Some(7))]),
        feature(vec![PropValue::U8(Some(2)), PropValue::F64(Some(8))]),
    ];
    match build_column_permuted("u".to_string(), 0, &features, &[1, 0, 1]) {
        StagedProperty::U8(c) => assert_eq!(c.values, vec![Some(2), Some(1), Some(2)]),
        _ => panic!("expected a u8 column"),
    }
    match build_column_permuted("f".to_string(), 1, &features, &[0, 1]) {
        StagedProperty::F64(c) => assert_eq!(c.values, vec![Some(7), Some(8)]),
        _ => panic!("expected an f64 column"),
    }
}

#[test]
fn missing_column_is_an_empty_string_column() {
    let features = vec![
        feature(vec![PropValue::Str(Some("a".to_string()))]),
        feature(vec![]),
    ];
    match build_column_permuted("s".to_string(), 0, &features, &[0, 1]) {
        StagedProperty::Str(c) => assert_eq!(c.values, vec![Some("a".to_string()), None]),
        _ => panic!("expected a string column"),
    }
    match build_column_permuted("none".to_string(), 5, &features, &[0, 1]) {
        StagedProperty::Str(c) => assert_eq!(c.values, vec![None, None]),
        _ => panic!("expected a string column"),
    }
}

#[test]
fn staging_reads_features_in_permuted_order() {
    let mut a = feature(vec![PropValue::I32(Some(1)), PropValue::Str(Some("x".to_string()))]);
    a.geometry = Geom32::Point(Coord32 { x: 1, y: 2 });
    let mut b = feature(vec![PropValue::I32(Some(2)), PropValue::Str(Some("y".to_string()))]);
    b.geometry = Geom32::Point(Coord32 { x: 3, y: 4 });
    b.id = Some(9);
    let names = vec!["n".to_string(), "s".to_string()];
    let mut cache = HashMap::new();
    cache.insert(1usize, StagedProperty::opt_str("s".to_string(), vec![None, None]));
    let staged = stage_permuted("t".to_string(), 512, &[a, b], &names, &[1, 0], &cache);
    assert_eq!(staged.name, "t");
    assert_eq!(staged.extent, 512);
    assert_eq!(staged.id.unwrap().0, vec![Some(9), None]);
    assert_eq!(staged.geometry.vertices(), Some(&[3, 4, 1, 2][..]));
    match &staged.properties[0] {
        StagedProperty::I32(c) => assert_eq!(c.values, vec![Some(2), Some(1)]),
        _ => panic!("expected an i32 column"),
    }
    match &staged.properties[1] {
        StagedProperty::Str(c) => assert_eq!(c.values, vec![None, None]),
        _ => panic!("expected the cached string column"),
    }
}

#[test]
fn staging_without_ids_has_no_id_column() {
    let staged = stage_permuted("t".to_string(), 1, &[feature(vec![])], &[], &[0], &HashMap::new());
    assert!(staged.id.is_none());
    assert!(staged.properties.is_empty());
}
