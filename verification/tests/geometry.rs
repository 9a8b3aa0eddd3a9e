use geo::TriangulateEarcut;
use mlt::staging::geometries_stageable;
use mlt::geom::{Coord32, Geom32, LineString32, Polygon32, Rect32};
use mlt::geometry_type::GeometryType;
use mlt::geometry_type::GeometryType::Polygon;
use mlt::meta::{parse_meta_geometries, MetaError};
use mlt::model::EarcutRaw;
use mlt::plan::GeoStreamName;
use mlt::streams::{
    encode_level1_length_stream, encode_level1_without_ring_buffer_length_stream,
    encode_level2_length_stream, encode_ring_lengths_for_mixed, encode_root_length_stream,
    extend_offsets, normalize_part_offsets_for_rings,
};
use mlt::values::GeometryValues;

fn ring(pts: &[(i32, i32)]) -> LineString32 {
    LineString32(pts.iter().map(|&(x, y)| Coord32 { x, y }).collect())
}

fn to_geo(ls: &LineString32) -> geo_types::LineString<f64> {
    geo_types::LineString(
        ls.0
            .iter()
            .map(|c| geo_types::Coord {
                x: f64::from(c.x),
                y: f64::from(c.y),
            })
            .collect(),
    )
}

/// Earcut triangulation of a polygon, as the encoder consumes it.
fn earcut(p: &Polygon32) -> EarcutRaw {
    let poly = geo_types::Polygon::new(
        to_geo(&p.exterior),
        p.interiors.iter().map(to_geo).collect(),
    );
    let raw = poly.earcut_triangles_raw();
    EarcutRaw {
        triangle_indices: raw.triangle_indices,
        num_vertices: raw.vertices.len(),
    }
}

fn square(x0: i32) -> Polygon32 {
    Polygon32::new(
        ring(&[(x0, 0), (x0 + 10, 0), (x0 + 10, 10), (x0, 10), (x0, 0)]),
        vec![],
    )
}

#[test]
fn test_encode_root_length_stream() {
    // Single Polygon geometry (no Multi)
    let types = vec![Polygon];
    let offsets = vec![0, 1]; // One polygon

    let lengths = encode_root_length_stream(&types, &offsets, Polygon);
    // Polygon == buffer_id, so no length encoded
    assert!(lengths.is_empty());

    // MultiPolygon needs length encoded
    let types = vec![GeometryType::MultiPolygon];
    let offsets = vec![0, 2]; // MultiPolygon with 2 polygons

    let lengths = encode_root_length_stream(&types, &offsets, Polygon);
    assert_eq!(lengths, vec![2]);
}

#[test]
fn earcut_polygon_indices_in_range() {
    let polygon = square(0);
    let mut g = GeometryValues::new_tessellated();
    let ec = earcut(&polygon);
    g.push_geom(&Geom32::Polygon(polygon), &[ec]);
    let tris = g.triangles().expect("triangles");
    let n = tris[0];
    assert!(n > 0, "expected at least one triangle");
    let ib = g.index_buffer().expect("index buffer");
    assert_eq!(ib.len(), usize::try_from(n).unwrap() * 3);
    // 4 unique (non-closing) vertices → indices in 0..4
    assert!(ib.iter().all(|&i| i < 4));
}

#[test]
fn earcut_vertex_offset_for_multi_polygon_parts() {
    let poly1 = square(0);
    let poly2 = square(20);
    let ecs = [earcut(&poly1), earcut(&poly2)];
    let mut g = GeometryValues::new_tessellated();
    g.push_geom(&Geom32::MultiPolygon(vec![poly1, poly2]), &ecs);
    let ib = g.index_buffer().expect("index buffer");
    let tris = g.triangles().expect("triangles");
    assert_eq!(tris.len(), 1);
    let total = usize::try_from(tris[0]).unwrap();
    assert_eq!(ib.len(), total * 3);
    // First quad: 4 verts → 2 triangles, 6 indices
    let split = 6;
    let (first, second) = ib.split_at(split);
    assert!(
        first.iter().all(|&i| i < 4),
        "first polygon indices should reference verts 0..4: {first:?}"
    );
    assert!(
        second.iter().all(|&i| (4..8).contains(&i)),
        "second polygon indices should reference verts 4..8: {second:?}"
    );
}

#[test]
fn compute_tessellation_matches_push_geom() {
    let p = square(0);
    let polygon = Geom32::Polygon(p.clone());

    // Path 1: push_geom with new_tessellated (existing path)
    let mut via_push = GeometryValues::new_tessellated();
    via_push.push_geom(&polygon, &[earcut(&p)]);

    // Path 2: push_geom without tessellation, then compute_tessellation
    let mut via_compute = GeometryValues::default();
    via_compute.push_geom(&polygon, &[]);
    assert!(via_compute.triangles().is_none());
    via_compute.compute_tessellation(&[vec![earcut(&p)]]);

    assert_eq!(via_push.triangles(), via_compute.triangles());
    assert_eq!(via_push.index_buffer(), via_compute.index_buffer());
}

#[test]
fn compute_tessellation_multi_polygon_columnar() {
    let p1 = square(0);
    let p2 = square(20);
    let mp = Geom32::MultiPolygon(vec![p1.clone(), p2.clone()]);

    // Path 1: from_geoms with tessellation
    let via_push = GeometryValues::from_geoms(std::slice::from_ref(&mp), true, &[earcut(&p1), earcut(&p2)]);

    // Path 2: from_geoms without tessellation, then compute
    let mut via_compute = GeometryValues::from_geoms(&[mp], false, &[]);
    via_compute.compute_tessellation(&[vec![earcut(&p1), earcut(&p2)]]);

    assert_eq!(via_push.triangles(), via_compute.triangles());
    assert_eq!(via_push.index_buffer(), via_compute.index_buffer());
}

#[test]
fn compute_tessellation_idempotent() {
    let p = square(0);
    let polygon = Geom32::Polygon(p.clone());

    let mut g = GeometryValues::new_tessellated();
    g.push_geom(&polygon, &[earcut(&p)]);
    let tris_before = g.triangles().unwrap().to_vec();
    let ib_before = g.index_buffer().unwrap().to_vec();

    g.compute_tessellation(&[vec![earcut(&p)]]); // should be no-op

    assert_eq!(g.triangles().unwrap(), &tris_before);
    assert_eq!(g.index_buffer().unwrap(), &ib_before);
}

#[test]
fn compute_tessellation_skips_non_polygons() {
    let mut g = GeometryValues::default();
    g.push_geom(&Geom32::Point(Coord32 { x: 0, y: 0 }), &[]);
    g.push_geom(&Geom32::LineString(ring(&[(0, 0), (1, 1)])), &[]);
    g.compute_tessellation(&[]);

    assert_eq!(g.triangles(), Some(&[][..]));
    // index_buffer is only initialized when a polygon is actually tessellated
    assert!(g.index_buffer().is_none_or(<[u32]>::is_empty));
}

// ---------------------------------------------------------------------------
// Further cases
// ---------------------------------------------------------------------------

#[test]
fn polygon_new_closes_rings() {
    let p = Polygon32::new(ring(&[(0, 0), (1, 0), (1, 1)]), vec![ring(&[]), ring(&[(5, 5)])]);
    assert_eq!(p.exterior.0.len(), 4);
    assert_eq!(p.exterior.0[3], Coord32 { x: 0, y: 0 });
    assert!(p.interiors[0].0.is_empty());
    assert_eq!(p.interiors[1].0.len(), 1);
}

#[test]
fn rect_as_polygon_ring() {
    let r = Rect32 {
        min: Coord32 { x: 1, y: 2 },
        max: Coord32 { x: 3, y: 4 },
    };
    let p = r.to_polygon();
    let xs: Vec<(i32, i32)> = p.exterior.0.iter().map(|c| (c.x, c.y)).collect();
    assert_eq!(xs, vec![(3, 2), (3, 4), (1, 4), (1, 2), (3, 2)]);
}

#[test]
fn geometry_type_of_geometries() {
    assert_eq!(
        GeometryType::try_from(&Geom32::MultiPoint(vec![])),
        Ok(GeometryType::MultiPoint)
    );
    assert_eq!(GeometryType::try_from(&Geom32::GeometryCollection(vec![])), Err(()));
    assert_eq!(GeometryType::MultiLineString.code(), 4);
    assert_eq!(GeometryType::from_code(2), Some(GeometryType::Polygon));
    assert_eq!(GeometryType::from_code(6), None);
}

#[test]
fn from_geoms_builds_dense_offsets() {
    let geoms = vec![
        Geom32::Point(Coord32 { x: 1, y: 2 }),
        Geom32::MultiPoint(vec![Coord32 { x: 3, y: 4 }, Coord32 { x: 5, y: 6 }]),
        Geom32::LineString(ring(&[(0, 0), (1, 1), (2, 2)])),
    ];
    let g = GeometryValues::from_geoms(&geoms, false, &[]);
    assert_eq!(
        g.vector_types(),
        &[
            GeometryType::Point,
            GeometryType::MultiPoint,
            GeometryType::LineString
        ]
    );
    assert_eq!(g.geometry_offsets(), Some(&[0, 1, 3, 4][..]));
    assert_eq!(g.part_offsets(), Some(&[0, 1, 2, 3, 6][..]));
    assert_eq!(g.ring_offsets(), None);
    assert_eq!(g.vertices(), Some(&[1, 2, 3, 4, 5, 6, 0, 0, 1, 1, 2, 2][..]));
}

#[test]
fn polygon_rings_drop_closing_vertex() {
    let p = Polygon32::new(
        ring(&[(0, 0), (4, 0), (4, 4), (0, 4), (0, 0)]),
        vec![ring(&[(1, 1), (2, 1), (2, 2), (1, 1)])],
    );
    let g = GeometryValues::from_geoms(&[Geom32::Polygon(p)], false, &[]);
    assert_eq!(g.part_offsets(), Some(&[0, 2][..]));
    assert_eq!(g.ring_offsets(), Some(&[0, 4, 7][..]));
    assert_eq!(g.vertices().unwrap().len(), 14);
    let streams = g.geometry_streams();
    let names: Vec<GeoStreamName> = streams.iter().map(|s| s.name).collect();
    assert_eq!(
        names,
        vec![
            GeoStreamName::Meta,
            GeoStreamName::Geometries,
            GeoStreamName::Parts,
            GeoStreamName::PartsRing,
            GeoStreamName::Triangles,
            GeoStreamName::TrianglesIndexes
        ]
    );
}

#[test]
fn geometry_collection_members_become_features() {
    let gc = Geom32::GeometryCollection(vec![
        Geom32::Point(Coord32 { x: 1, y: 1 }),
        Geom32::Point(Coord32 { x: 2, y: 2 }),
    ]);
    let mut g = GeometryValues::default();
    g.push_geom(&gc, &[]);
    assert_eq!(g.vector_types().len(), 2);
    let g = g.with_geom(&Geom32::Point(Coord32 { x: 3, y: 3 }), &[]);
    assert_eq!(g.vertices(), Some(&[1, 1, 2, 2, 3, 3][..]));
}

#[test]
fn length_streams_from_offsets() {
    let types = [GeometryType::MultiLineString, GeometryType::LineString];
    let geom = [0u32, 2, 3];
    let part = [0u32, 2, 5, 7];
    assert_eq!(
        encode_level1_without_ring_buffer_length_stream(&types, &geom, &part),
        vec![2, 3, 2]
    );
    let types = [GeometryType::MultiPolygon];
    let geom = [0u32, 2];
    let part = [0u32, 1, 3];
    let ring = [0u32, 4, 8, 12];
    assert_eq!(encode_level1_length_stream(&types, &geom, &part, false), vec![1, 2]);
    assert_eq!(encode_level2_length_stream(&types, &geom, &part, &ring), vec![4, 4, 4]);
    let types = [GeometryType::Polygon, GeometryType::LineString];
    let part = [0u32, 2, 3];
    let ring = [0u32, 4, 8, 11];
    assert_eq!(encode_ring_lengths_for_mixed(&types, &part, &ring, true), vec![4, 4, 3]);
    assert_eq!(encode_ring_lengths_for_mixed(&types, &part, &ring, false), vec![4, 4]);
}

#[test]
fn offsets_extend_and_normalize() {
    let mut lengths = vec![9u32];
    let n = extend_offsets(&mut lengths, &[0, 3, 3, 7]);
    assert_eq!(n, 3);
    assert_eq!(lengths, vec![9, 3, 0, 4]);
    let types = [GeometryType::Point, GeometryType::Polygon, GeometryType::LineString];
    let normalized = normalize_part_offsets_for_rings(&types, &[0, 2], &[0, 4, 8, 10]);
    assert_eq!(normalized, vec![0, 0, 2, 3]);
}

#[test]
fn meta_parse_errors_and_shapes() {
    assert_eq!(parse_meta_geometries(&[], &[1]).unwrap_err(), MetaError::UnexpectedEnd);
    assert_eq!(
        parse_meta_geometries(&[0, 0], &[1, 2]).unwrap_err(),
        MetaError::CoordValues {
            needed: 4,
            from: 0,
            have: 2
        }
    );
    assert_eq!(
        parse_meta_geometries(&[0, 0], &[2, 2, 1]).unwrap_err(),
        MetaError::MetaTooShort { need: 4, have: 3 }
    );
    assert_eq!(parse_meta_geometries(&[], &[2, 0]).unwrap_err(), MetaError::ZeroRings);
    assert_eq!(
        MetaError::CoordValues {
            needed: 4,
            from: 0,
            have: 2
        }
        .message(),
        "coords too short: need 4 values from index 0, have 2"
    );
    assert_eq!(MetaError::InvalidType(99).message(), "invalid geometry type: 99");
    let geoms = parse_meta_geometries(&[0, 0, 3, 0, 0, 3], &[5, 1, 1, 3]).unwrap();
    match &geoms[0] {
        Geom32::MultiPolygon(ps) => {
            assert_eq!(ps.len(), 1);
            // The ring is closed by the polygon constructor.
            assert_eq!(ps[0].exterior.0.len(), 4);
        }
        _ => panic!("expected a multi-polygon"),
    }
}

#[test]
fn stageable_geometries_are_recognised() {
    let gc = Geom32::GeometryCollection(vec![
        Geom32::Point(Coord32 { x: 0, y: 0 }),
        Geom32::MultiPoint(vec![Coord32 { x: 0, y: 0 }; 4]),
    ]);
    assert!(geometries_stageable(&[gc, Geom32::Polygon(square(0))]));
    assert!(geometries_stageable(&[]));
    let big = Geom32::MultiPolygon(vec![square(0); 3]);
    assert!(geometries_stageable(&[big, Geom32::LineString(ring(&[(1, 1)]))]));
}

#[test]
fn tessellation_of_collections_matches_push() {
    let p1 = square(0);
    let p2 = square(20);
    let gc = Geom32::GeometryCollection(vec![
        Geom32::Point(Coord32 { x: 1, y: 1 }),
        Geom32::Polygon(p1.clone()),
        Geom32::MultiPolygon(vec![p2.clone()]),
    ]);
    let via_push = GeometryValues::from_geoms(std::slice::from_ref(&gc), true, &[earcut(&p1), earcut(&p2)]);
    let mut via_compute = GeometryValues::from_geoms(&[gc], false, &[]);
    via_compute.compute_tessellation(&[vec![earcut(&p1)], vec![earcut(&p2)]]);
    assert_eq!(via_push.triangles(), via_compute.triangles());
    assert_eq!(via_push.index_buffer(), via_compute.index_buffer());
    assert_eq!(via_push.triangles(), Some(&[2, 2][..]));
    // A second computation leaves everything as it is, whatever it is given.
    via_compute.compute_tessellation(&[]);
    assert_eq!(via_push.index_buffer(), via_compute.index_buffer());
}

#[test]
fn push_geom_keeps_dense_offsets_once_initialized() {
    let mp = Geom32::MultiPolygon(vec![square(0)]);
    let mut g = GeometryValues::from_geoms(&[mp], false, &[]);
    g.push_geom(&Geom32::Point(Coord32 { x: 1, y: 1 }), &[]);
    g.push_geom(
        &Geom32::GeometryCollection(vec![Geom32::LineString(ring(&[(0, 0), (1, 1)]))]),
        &[],
    );
    // One entry per feature plus one, each level indexing the next.
    let geom = g.geometry_offsets().unwrap();
    let part = g.part_offsets().unwrap();
    let rings = g.ring_offsets().unwrap();
    assert_eq!(geom, &[0, 1, 2, 3]);
    assert_eq!(part.len(), *geom.last().unwrap() as usize + 1);
    assert_eq!(rings.len(), *part.last().unwrap() as usize + 1);
    assert_eq!(*rings.last().unwrap() as usize * 2, g.vertices().unwrap().len());
}

fn same_buffers(a: &GeometryValues, b: &GeometryValues) -> bool {
    a.vector_types() == b.vector_types()
        && a.geometry_offsets() == b.geometry_offsets()
        && a.part_offsets() == b.part_offsets()
        && a.ring_offsets() == b.ring_offsets()
        && a.index_buffer() == b.index_buffer()
        && a.triangles() == b.triangles()
        && a.vertices() == b.vertices()
}

#[test]
fn with_geom_equals_clone_then_push() {
    let p = Polygon32 {
        exterior: ring(&[(0, 0), (10, 0), (10, 10), (0, 10), (0, 0)]),
        interiors: vec![],
    };
    let base = GeometryValues::from_geoms(
        &[
            Geom32::Point(Coord32 { x: 1, y: 2 }),
            Geom32::MultiPoint(vec![Coord32 { x: 3, y: 4 }, Coord32 { x: 5, y: 6 }]),
        ],
        true,
        &[],
    );
    let copy = base.clone();
    assert!(same_buffers(&copy, &base));
    let geom = Geom32::Polygon(p.clone());
    let ecs = [earcut(&p)];
    let via_with = base.clone().with_geom(&geom, &ecs);
    let mut via_push = base.clone();
    via_push.push_geom(&geom, &ecs);
    assert!(same_buffers(&via_with, &via_push));
    assert_eq!(via_with.triangles(), Some(&[2][..]));
    assert!(same_buffers(&base, &copy));
}
