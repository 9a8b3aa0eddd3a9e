use mlt::builder::{decompose_options, push_scalar_or_opt, MltLayerEncoder, MltTileEncoder};
use mlt::column::MltColumnType;
use mlt::geometry_type::GeometryType;
use mlt::staged::StagedProperty;

#[test]
fn test_roundtrip() {
    let mut layer = MltLayerEncoder::new("test".to_string(), 4096);
    layer.set_ids(&[1, 2, 3], None).unwrap();
    // 3 points via set_geometries: meta = [Point, Point, Point]
    layer
        .set_geometries(&[10, 20, 30, 40, 50, 60], &[0, 0, 0])
        .unwrap();
    let pop_values: [i32; 3] = [100, 200, 300];
    layer
        .add_column(
            "pop".to_string(),
            MltColumnType::I32,
            bytemuck::cast_slice(&pop_values),
            3,
            None,
        )
        .unwrap();
    // "a" + "c" concatenated, offsets delimit each string
    layer.add_string_column_raw(
        "name".to_string(),
        b"ac",
        &[0, 1, 1, 2], // 3 entries: "a", "" (null), "c"
        Some(&[true, false, true]),
    );

    let staged = layer.into_staged().unwrap();
    assert_eq!(staged.name, "test");
    assert_eq!(staged.extent, 4096);
    assert_eq!(staged.id.as_ref().unwrap().0.len(), 3);
    assert_eq!(staged.geometry.vector_types().len(), 3);
    assert_eq!(staged.properties.len(), 2);
}

#[test]
fn test_missing_geometry_rejected() {
    let layer = MltLayerEncoder::new("t".to_string(), 4096);
    let err = layer.into_staged().unwrap_err();
    assert!(err.contains("geometry was not set"), "{err}");
}

#[test]
fn test_ids_presence_length_mismatch() {
    let mut layer = MltLayerEncoder::new("t".to_string(), 4096);
    let err = layer.set_ids(&[1, 2], Some(&[true])).unwrap_err();
    assert!(err.contains("present length"), "{err}");
}

#[test]
fn test_invalid_geometry_type() {
    let mut layer = MltLayerEncoder::new("t".to_string(), 4096);
    let err = layer.set_geometries(&[], &[99]).unwrap_err();
    assert!(err.contains("invalid geometry type"), "{err}");
}

#[test]
fn builder_test_presence_bitmap() {
    let prop = push_scalar_or_opt(
        "x".to_string(),
        &[10i32, 20, 30],
        Some(&[true, false, true]),
        StagedProperty::i32,
        StagedProperty::opt_i32,
    );
    // Should produce the optional variant since presence was provided
    assert_eq!(prop.name(), "x");
}

#[test]
fn test_set_geometries_points() {
    let mut layer = MltLayerEncoder::new("pts".to_string(), 4096);
    // 3 points: (10,20), (30,40), (50,60)
    let coords = [10, 20, 30, 40, 50, 60];
    let meta = [0, 0, 0]; // 3x Point
    layer.set_geometries(&coords, &meta).unwrap();
    let staged = layer.into_staged().unwrap();
    assert_eq!(staged.geometry.vector_types().len(), 3);
    assert_eq!(
        staged.geometry.vector_types(),
        &[
            GeometryType::Point,
            GeometryType::Point,
            GeometryType::Point
        ]
    );
}

#[test]
fn test_set_geometries_linestring() {
    let mut layer = MltLayerEncoder::new("ls".to_string(), 4096);
    // LineString with 3 points
    let coords = [0, 0, 10, 10, 20, 0];
    let meta = [1, 3]; // type=LineString, 3 coord pairs
    layer.set_geometries(&coords, &meta).unwrap();
    let staged = layer.into_staged().unwrap();
    assert_eq!(staged.geometry.vector_types(), &[GeometryType::LineString]);
}

#[test]
fn test_set_geometries_polygon() {
    let mut layer = MltLayerEncoder::new("poly".to_string(), 4096);
    // Polygon with exterior ring of 5 points (including closing vertex)
    let coords = [0, 0, 10, 0, 10, 10, 0, 10, 0, 0];
    let meta = [2, 1, 5]; // type=Polygon, 1 ring, ring has 5 coord pairs
    layer.set_geometries(&coords, &meta).unwrap();
    let staged = layer.into_staged().unwrap();
    assert_eq!(staged.geometry.vector_types(), &[GeometryType::Polygon]);
}

#[test]
fn test_set_geometries_multipoint() {
    let mut layer = MltLayerEncoder::new("mp".to_string(), 4096);
    let coords = [1, 2, 3, 4];
    let meta = [3, 2]; // type=MultiPoint, 2 points
    layer.set_geometries(&coords, &meta).unwrap();
    let staged = layer.into_staged().unwrap();
    assert_eq!(staged.geometry.vector_types(), &[GeometryType::MultiPoint]);
}

#[test]
fn test_set_geometries_multilinestring() {
    let mut layer = MltLayerEncoder::new("mls".to_string(), 4096);
    // 2 linestrings: first has 2 pts, second has 3 pts
    let coords = [0, 0, 1, 1, 2, 2, 3, 3, 4, 4];
    let meta = [4, 2, 2, 3]; // type=MLS, 2 lines, line0=2pts, line1=3pts
    layer.set_geometries(&coords, &meta).unwrap();
    let staged = layer.into_staged().unwrap();
    assert_eq!(
        staged.geometry.vector_types(),
        &[GeometryType::MultiLineString]
    );
}

#[test]
fn test_set_geometries_multipolygon() {
    let mut layer = MltLayerEncoder::new("mpoly".to_string(), 4096);
    // 2 triangles (no closing vertex) as a MultiPolygon
    let coords = [0, 0, 1, 0, 0, 1, 10, 10, 11, 10, 10, 11];
    let meta = [
        5, 2, // type=MultiPolygon, 2 polygons
        1, 3, // poly0: 1 ring, 3 coord pairs
        1, 3, // poly1: 1 ring, 3 coord pairs
    ];
    layer.set_geometries(&coords, &meta).unwrap();
    let staged = layer.into_staged().unwrap();
    assert_eq!(
        staged.geometry.vector_types(),
        &[GeometryType::MultiPolygon]
    );
}

#[test]
fn test_set_geometries_mixed() {
    let mut layer = MltLayerEncoder::new("mix".to_string(), 4096);
    // Point + LineString
    let coords = [5, 5, 0, 0, 10, 10];
    let meta = [0, 1, 2]; // Point, then LineString with 2 points
    layer.set_geometries(&coords, &meta).unwrap();
    let staged = layer.into_staged().unwrap();
    assert_eq!(
        staged.geometry.vector_types(),
        &[GeometryType::Point, GeometryType::LineString]
    );
}

#[test]
fn test_set_geometries_invalid_type() {
    let mut layer = MltLayerEncoder::new("t".to_string(), 4096);
    let err = layer.set_geometries(&[], &[99]).unwrap_err();
    assert!(err.contains("invalid geometry type"), "{err}");
}

#[test]
fn test_set_geometries_unconsumed_coords() {
    let mut layer = MltLayerEncoder::new("t".to_string(), 4096);
    let err = layer.set_geometries(&[1, 2, 3, 4], &[0]).unwrap_err(); // Point uses 2, 2 left over
    assert!(err.contains("unconsumed coords"), "{err}");
}

#[test]
fn test_tile_builder() {
    let mut l1 = MltLayerEncoder::new("a".to_string(), 4096);
    l1.set_geometries(&[1, 2], &[0]).unwrap(); // 1 Point
    let mut l2 = MltLayerEncoder::new("b".to_string(), 4096);
    l2.set_geometries(&[3, 4], &[0]).unwrap(); // 1 Point

    let mut tile = MltTileEncoder::new();
    tile.add_layer(l1.into_staged().unwrap());
    tile.add_layer(l2.into_staged().unwrap());

    let layers = tile.into_layers();
    assert_eq!(layers.len(), 2);
    assert_eq!(layers[0].name, "a");
    assert_eq!(layers[1].name, "b");
}

// ---------------------------------------------------------------------------
// Further cases
// ---------------------------------------------------------------------------

#[test]
fn ids_mismatch_message_is_exact() {
    let mut layer = MltLayerEncoder::new("t".to_string(), 4096);
    let err = layer.set_ids(&[1, 2], Some(&[true])).unwrap_err();
    assert_eq!(err, "ids length (2) != present length (1)");
    assert!(layer.ids.is_none());
}

#[test]
fn ids_with_presence_mask() {
    let mut layer = MltLayerEncoder::new("t".to_string(), 4096);
    layer.set_ids(&[7, 8, 9], Some(&[true, false, true])).unwrap();
    assert_eq!(layer.ids.as_ref().unwrap().0, vec![Some(7), None, Some(9)]);
    layer.set_ids(&[5], None).unwrap();
    assert_eq!(layer.ids.as_ref().unwrap().0, vec![Some(5)]);
}

#[test]
fn column_too_short_errors() {
    let mut layer = MltLayerEncoder::new("t".to_string(), 4096);
    let err = layer
        .add_column("v".to_string(), MltColumnType::I32, &[0, 0, 0, 0, 0], 2, None)
        .unwrap_err();
    assert_eq!(err, "i32 column: need 8 bytes for 2 elements, got 5");
    let err = layer
        .add_column("b".to_string(), MltColumnType::Bool, &[1], 3, None)
        .unwrap_err();
    assert_eq!(err, "bool column: need 3 bytes, got 1");
    let err = layer
        .add_column("d".to_string(), MltColumnType::F64, &[], 1, None)
        .unwrap_err();
    assert_eq!(err, "f64 column: need 8 bytes for 1 elements, got 0");
    assert!(layer.properties.is_empty());
}

#[test]
fn columns_of_every_type_read_native_values() {
    let mut layer = MltLayerEncoder::new("t".to_string(), 4096);
    layer
        .add_column("b".to_string(), MltColumnType::Bool, &[0, 2, 1], 3, None)
        .unwrap();
    layer
        .add_column("i8".to_string(), MltColumnType::I8, &[255, 1], 2, None)
        .unwrap();
    let u32s: [u32; 2] = [7, 0xdead_beef];
    layer
        .add_column("u32".to_string(), MltColumnType::U32, bytemuck::cast_slice(&u32s), 2, None)
        .unwrap();
    let i64s: [i64; 2] = [-3, 1 << 40];
    layer
        .add_column(
            "i64".to_string(),
            MltColumnType::I64,
            bytemuck::cast_slice(&i64s),
            2,
            Some(&[false, true]),
        )
        .unwrap();
    let f32s: [f32; 1] = [1.5];
    layer
        .add_column("f32".to_string(), MltColumnType::F32, bytemuck::cast_slice(&f32s), 1, None)
        .unwrap();
    assert_eq!(layer.properties.len(), 5);
    match &layer.properties[0] {
        StagedProperty::Bool(c) => assert_eq!(c.values, vec![Some(false), Some(true), Some(true)]),
        _ => panic!("expected a bool column"),
    }
    match &layer.properties[1] {
        StagedProperty::I8(c) => assert_eq!(c.values, vec![Some(-1), Some(1)]),
        _ => panic!("expected an i8 column"),
    }
    match &layer.properties[2] {
        StagedProperty::U32(c) => assert_eq!(c.values, vec![Some(7), Some(0xdead_beef)]),
        _ => panic!("expected a u32 column"),
    }
    match &layer.properties[3] {
        StagedProperty::I64(c) => assert_eq!(c.values, vec![None, Some(1 << 40)]),
        _ => panic!("expected an i64 column"),
    }
    match &layer.properties[4] {
        StagedProperty::F32(c) => assert_eq!(c.values, vec![Some(1.5f32.to_bits())]),
        _ => panic!("expected an f32 column"),
    }
}

#[test]
fn column_presence_shorter_than_values_truncates() {
    let mut layer = MltLayerEncoder::new("t".to_string(), 4096);
    layer
        .add_column("u8".to_string(), MltColumnType::U8, &[4, 5, 6], 3, Some(&[true, false]))
        .unwrap();
    match &layer.properties[0] {
        StagedProperty::U8(c) => assert_eq!(c.values, vec![Some(4), None]),
        _ => panic!("expected a u8 column"),
    }
}

#[test]
fn string_column_values() {
    let mut layer = MltLayerEncoder::new("t".to_string(), 4096);
    layer.add_string_column_raw(
        "s".to_string(),
        b"helloworld\xff",
        &[0, 5, 5, 10, 11, 3, 20],
        None,
    );
    layer.add_string_column_raw("one".to_string(), b"x", &[0], None);
    layer.add_string_column_raw("masked".to_string(), b"ab", &[0, 1, 2], Some(&[false]));
    match &layer.properties[0] {
        StagedProperty::Str(c) => assert_eq!(
            c.values,
            vec![
                Some("hello".to_string()),
                Some(String::new()),
                Some("world".to_string()),
                Some("\u{fffd}".to_string()),
                Some(String::new()),
                Some(String::new()),
            ]
        ),
        _ => panic!("expected a string column"),
    }
    match &layer.properties[1] {
        StagedProperty::Str(c) => assert!(c.values.is_empty()),
        _ => panic!("expected a string column"),
    }
    match &layer.properties[2] {
        StagedProperty::Str(c) => assert_eq!(c.values, vec![None, None]),
        _ => panic!("expected a string column"),
    }
}

#[test]
fn geometry_errors_leave_layer_unchanged() {
    let mut layer = MltLayerEncoder::new("t".to_string(), 4096);
    layer.set_geometries(&[1, 2], &[0]).unwrap();
    let err = layer.set_geometries(&[1], &[0]).unwrap_err();
    assert_eq!(err, "coords too short: need index 1, have 1");
    assert_eq!(layer.geometries.as_ref().unwrap().len(), 1);
}

#[test]
fn decompose_then_mask_gives_back_options() {
    let opts = [Some(3u32), None, Some(5)];
    let (vals, pres) = decompose_options(&opts);
    assert_eq!(vals, vec![3, 0, 5]);
    assert_eq!(pres, vec![true, false, true]);
    let mut layer = MltLayerEncoder::new("t".to_string(), 4096);
    layer.set_ids(&[3, 0, 5], Some(&pres)).unwrap();
    assert_eq!(
        layer.ids.as_ref().unwrap().0,
        vec![Some(3u64), None, Some(5)]
    );
}

#[test]
fn staged_layer_keeps_columns() {
    let mut layer = MltLayerEncoder::new("roads".to_string(), 512);
    layer.set_geometries(&[0, 0, 1, 1], &[1, 2]).unwrap();
    layer.set_ids(&[42], None).unwrap();
    layer
        .add_column("lanes".to_string(), MltColumnType::U8, &[2], 1, None)
        .unwrap();
    let staged = layer.into_staged().unwrap();
    assert_eq!(staged.name, "roads");
    assert_eq!(staged.extent, 512);
    assert_eq!(staged.id.unwrap().0, vec![Some(42)]);
    assert_eq!(staged.properties[0].name(), "lanes");
    assert_eq!(staged.geometry.vertices(), Some(&[0, 0, 1, 1][..]));
    assert_eq!(staged.geometry.part_offsets(), Some(&[0, 2][..]));
}

#[test]
fn byte_order_is_the_machines() {
    let little = u32::from_ne_bytes([1, 0, 0, 0]) == 1;
    assert_eq!(mlt::column::native_little_endian(), little);
    let mut layer = MltLayerEncoder::new("t".to_string(), 4096);
    layer
        .add_column("w".to_string(), MltColumnType::U32, &[1, 2, 3, 4, 5, 6, 7, 8], 2, None)
        .unwrap();
    let expected = if little {
        vec![Some(0x0403_0201), Some(0x0807_0605)]
    } else {
        vec![Some(0x0102_0304), Some(0x0506_0708)]
    };
    match &layer.properties[0] {
        StagedProperty::U32(c) => assert_eq!(c.values, expected),
        _ => panic!("expected a u32 column"),
    }
}
