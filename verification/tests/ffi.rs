use mlt::ffi::{
    opt_slice, to_core_config, MltColumnType, MltEncodedBuffer, MltEncoderConfig, MltLayerEncoder,
    MltTileEncoder,
};
use mlt::staged::EncoderConfig;

#[test]
fn layer_handle_rejects_invalid_utf8_name() {
    assert!(MltLayerEncoder::new(b"\xff", 4096).is_err());
    let h = MltLayerEncoder::new("straße".as_bytes(), 7).ok().unwrap();
    let inner = h.0.as_ref().unwrap();
    assert_eq!(inner.name, "straße");
    assert_eq!(inner.extent, 7);
}

#[test]
fn layer_handle_forwards_columns() {
    let mut h = MltLayerEncoder::new(b"t", 4096).ok().unwrap();
    h.set_ids(&[1, 2], &[]).unwrap();
    h.set_geometries(&[1, 2, 3, 4], &[0, 0]).unwrap();
    h.add_column(b"n\xffme", MltColumnType::U8, &[9, 8], 2, &[true, false])
        .unwrap();
    h.add_string_column(b"s", b"ab", &[0, 1, 2], &[]).unwrap();
    let err = h.set_ids(&[1], &[true, true]).err().unwrap();
    assert_eq!(err.0, "ids length (1) != present length (2)");
    let inner = h.0.as_ref().unwrap();
    assert_eq!(inner.ids.as_ref().unwrap().0, vec![Some(1), Some(2)]);
    assert_eq!(inner.properties.len(), 2);
    assert_eq!(inner.properties[0].name(), "n\u{fffd}me");
}

#[test]
fn tile_add_layer_consumes_layer() {
    let mut l1 = MltLayerEncoder::new(b"a", 4096).ok().unwrap();
    l1.set_geometries(&[1, 2], &[0]).unwrap();
    let mut tile = MltTileEncoder::new();
    tile.add_layer(&mut l1).unwrap();
    assert!(l1.0.is_none());
    let err = tile.add_layer(&mut l1).err().unwrap();
    assert_eq!(err.0, "layer encoder already consumed");
    let err = l1.set_geometries(&[1, 2], &[0]).err().unwrap();
    assert_eq!(err.0, "encoder already consumed");
    let mut empty = MltLayerEncoder::new(b"e", 4096).ok().unwrap();
    let err = tile.add_layer(&mut empty).err().unwrap();
    assert_eq!(err.0, "geometry was not set");
    assert!(empty.0.is_none());
    let layers = tile.0.take().unwrap().into_layers();
    assert_eq!(layers.len(), 1);
    assert_eq!(layers[0].name, "a");
    let mut l2 = MltLayerEncoder::new(b"b", 4096).ok().unwrap();
    let err = tile.add_layer(&mut l2).err().unwrap();
    assert_eq!(err.0, "tile encoder already consumed");
    assert!(l2.0.is_some());
}

#[test]
fn config_defaults_and_setters() {
    let mut c = MltEncoderConfig::new_default();
    assert_eq!(to_core_config(&c), EncoderConfig::default());
    c.set_tessellate(true);
    c.set_try_morton_sort(false);
    c.set_try_hilbert_sort(false);
    c.set_try_id_sort(false);
    c.set_allow_fsst(false);
    c.set_allow_fast_pfor(false);
    c.set_allow_shared_dict(false);
    assert_eq!(
        to_core_config(&c),
        EncoderConfig {
            tessellate: true,
            try_spatial_morton_sort: false,
            try_spatial_hilbert_sort: false,
            try_id_sort: false,
            allow_fsst: false,
            allow_fpf: false,
            allow_shared_dict: false,
        }
    );
}

#[test]
fn encoded_buffer_accessors() {
    let b = MltEncodedBuffer(vec![1, 2, 3]);
    assert_eq!(b.as_bytes(), &[1, 2, 3]);
    assert_eq!(b.len(), 3);
    assert!(!b.is_empty());
    assert!(MltEncodedBuffer(Vec::new()).is_empty());
    assert_eq!(opt_slice::<u8>(&[]), None);
    assert_eq!(opt_slice(&[1u8]), Some(&[1u8][..]));
}

#[test]
fn ids_round_trip_through_handle() {
    use_decomposed(&[Some(4), None, Some(6)]);
    use_decomposed(&[]);
}

fn use_decomposed(opts: &[Option<u64>]) {
    let (vals, flags) = mlt::builder::decompose_options(opts);
    let mut h = MltLayerEncoder::new(b"ids", 4096).ok().unwrap();
    h.set_ids(&vals, &flags).unwrap();
    assert_eq!(h.0.as_ref().unwrap().ids.as_ref().unwrap().0, opts.to_vec());
}
