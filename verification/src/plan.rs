//! The streams that encode a geometry column, computed from its columns.
use vstd::prelude::*;

use crate::geometry_type::GeometryType;
use crate::model::{or_empty, GeometryModel};
use crate::streams::{
    encode_level1_length_stream, encode_level1_without_ring_buffer_length_stream,
    encode_level2_length_stream, encode_ring_lengths_for_mixed, encode_root_length_stream,
    level2_lengths, level2_ok, nested_lengths, nested_lengths_ok, root_lengths, root_lengths_ok,
    zip_len,
};
use crate::values::GeometryValues;

verus! {

/// The role of a stream in a geometry column, which also fixes its stream type.
#[derive(Debug, Clone, Copy, PartialEq, Eq, Structural)]
pub enum GeoStreamName {
    /// Geometry type codes (length stream of kind var-binary).
    Meta,
    /// Sub-geometry counts per multi-geometry (length stream of kind geometries).
    Geometries,
    /// Vertex counts per line-string part without a ring buffer (parts).
    NoRings,
    /// Ring counts per polygon part (parts).
    Rings,
    /// Vertex counts per ring (rings).
    Rings2,
    /// Ring counts per polygon when there are no multi-geometries (parts).
    Parts,
    /// Vertex counts per ring when there are no multi-geometries (rings).
    PartsRing,
    /// Triangle counts per tessellated polygon (triangles).
    Triangles,
    /// Triangle corner indices (offset stream of kind index).
    TrianglesIndexes,
}

/// The stream type of a geometry stream.
#[derive(Debug, Clone, Copy, PartialEq, Eq, Structural)]
pub enum GeoStreamType {
    LengthVarBinary,
    LengthGeometries,
    LengthParts,
    LengthRings,
    LengthTriangles,
    OffsetIndex,
}

impl GeoStreamName {
    /// The stream type the stream is written with.
    pub fn stream_type(self) -> (t: GeoStreamType)
        ensures
            t == match self {
                GeoStreamName::Meta => GeoStreamType::LengthVarBinary,
                GeoStreamName::Geometries => GeoStreamType::LengthGeometries,
                GeoStreamName::NoRings | GeoStreamName::Rings | GeoStreamName::Parts => GeoStreamType::LengthParts,
                GeoStreamName::Rings2 | GeoStreamName::PartsRing => GeoStreamType::LengthRings,
                GeoStreamName::Triangles => GeoStreamType::LengthTriangles,
                GeoStreamName::TrianglesIndexes => GeoStreamType::OffsetIndex,
            },
    {
        match self {
            GeoStreamName::Meta => GeoStreamType::LengthVarBinary,
            GeoStreamName::Geometries => GeoStreamType::LengthGeometries,
            GeoStreamName::NoRings | GeoStreamName::Rings | GeoStreamName::Parts => GeoStreamType::LengthParts,
            GeoStreamName::Rings2 | GeoStreamName::PartsRing => GeoStreamType::LengthRings,
            GeoStreamName::Triangles => GeoStreamType::LengthTriangles,
            GeoStreamName::TrianglesIndexes => GeoStreamType::OffsetIndex,
        }
    }
}

/// One `u32` stream of a geometry column.
pub struct GeoStream {
    pub name: GeoStreamName,
    pub data: Vec<u32>,
}

/// Some feature is a line string or multi-line-string.
pub open spec fn has_line_string(types: Seq<GeometryType>) -> bool {
    exists|i: int| 0 <= i < types.len() && #[trigger] types[i].spec_is_linestring()
}

/// The topology streams of a collection, in the order they are written:
/// with geometry offsets, the geometry lengths, then (with part offsets)
/// either the part vertex counts or the ring counts and ring vertex counts;
/// without geometry offsets but with part offsets, either the vertex counts
/// per part or, with ring offsets, an empty geometries stream, the ring
/// counts of polygons and the vertex counts of rings and line strings.
/// Absent and empty offset arrays are treated alike.
pub open spec fn topology_streams(m: GeometryModel) -> Seq<(GeoStreamName, Seq<u32>)> {
    let types = m.vector_types;
    let n = types.len() as int;
    let geom = or_empty(m.geometry_offsets);
    let part = or_empty(m.part_offsets);
    let ring = or_empty(m.ring_offsets);
    if geom.len() != 0 {
        seq![
            (
                GeoStreamName::Geometries,
                root_lengths(types, geom, GeometryType::Polygon, zip_len(types, geom)),
            ),
        ] + if part.len() != 0 {
            if ring.len() == 0 {
                seq![
                    (GeoStreamName::NoRings, nested_lengths(types, geom, part, false, true, n)),
                ]
            } else {
                seq![
                    (GeoStreamName::Rings, nested_lengths(types, geom, part, true, false, n)),
                    (GeoStreamName::Rings2, level2_lengths(types, geom, part, ring, n)),
                ]
            }
        } else {
            Seq::empty()
        }
    } else if part.len() != 0 {
        if ring.len() == 0 {
            seq![
                (
                    GeoStreamName::NoRings,
                    root_lengths(types, part, GeometryType::Point, zip_len(types, part)),
                ),
            ]
        } else {
            seq![
                (GeoStreamName::Geometries, Seq::empty()),
                (
                    GeoStreamName::Parts,
                    root_lengths(types, part, GeometryType::LineString, zip_len(types, part)),
                ),
                (
                    GeoStreamName::PartsRing,
                    nested_lengths(types, part, ring, true, has_line_string(types), n),
                ),
            ]
        }
    } else {
        Seq::empty()
    }
}

/// Every length computation of `topology_streams` has the windows it reads.
pub open spec fn topology_ok(m: GeometryModel) -> bool {
    let types = m.vector_types;
    let geom = or_empty(m.geometry_offsets);
    let part = or_empty(m.part_offsets);
    let ring = or_empty(m.ring_offsets);
    if geom.len() != 0 {
        &&& root_lengths_ok(types, geom, GeometryType::Polygon)
        &&& part.len() != 0 ==> if ring.len() == 0 {
            nested_lengths_ok(types, geom, part, false, true)
        } else {
            nested_lengths_ok(types, geom, part, true, false) && level2_ok(types, geom, part, ring)
        }
    } else if part.len() != 0 {
        if ring.len() == 0 {
            root_lengths_ok(types, part, GeometryType::Point)
        } else {
            &&& root_lengths_ok(types, part, GeometryType::LineString)
            &&& nested_lengths_ok(types, part, ring, true, has_line_string(types))
        }
    } else {
        true
    }
}

/// All `u32` streams of a geometry column except the vertex streams, in
/// write order: the type codes, the topology streams, the triangle counts
/// and the triangle indices.
pub open spec fn geometry_streams_spec(m: GeometryModel) -> Seq<(GeoStreamName, Seq<u32>)> {
    seq![(GeoStreamName::Meta, m.vector_types.map_values(|t: GeometryType| t.spec_code()))]
        + topology_streams(m) + seq![
        (GeoStreamName::Triangles, or_empty(m.triangles)),
        (GeoStreamName::TrianglesIndexes, or_empty(m.index_buffer)),
    ]
}

/// Whether a stream is written: a non-empty one always, an empty one only when forced.
pub fn geo_stream_count(data: &[u32], forced: bool) -> (n: u8)
    ensures
        n == if data@.len() == 0 && !forced {
            0u8
        } else {
            1u8
        },
{
    if data.len() == 0 && !forced {
        0
    } else {
        1
    }
}

fn opt_as_slice(o: &Option<Vec<u32>>) -> (s: &[u32])
    ensures
        s@ == or_empty(crate::model::opt_view(*o)),
{
    match o {
        Some(v) => v.as_slice(),
        None => &[],
    }
}

impl GeometryValues {
    /// The `u32` streams that encode this geometry column, except the vertex
    /// streams, with their data, in write order.
    pub fn geometry_streams(&self) -> (streams: Vec<GeoStream>)
        requires
            topology_ok(self@),
        ensures
            streams@.len() == geometry_streams_spec(self@).len(),
            forall|i: int|
                0 <= i < streams@.len() ==> (#[trigger] streams@[i]).name == geometry_streams_spec(
                    self@,
                )[i].0 && streams@[i].data@ == geometry_streams_spec(self@)[i].1,
    {
        let ghost m = self@;
        let ghost spec = geometry_streams_spec(m);
        let types = self.vector_types.as_slice();
        let geom_offsets = opt_as_slice(&self.geometry_offsets);
        let part_offsets = opt_as_slice(&self.part_offsets);
        let ring_offsets = opt_as_slice(&self.ring_offsets);
        let mut streams: Vec<GeoStream> = Vec::new();

        let mut meta: Vec<u32> = Vec::new();
        let mut i: usize = 0;
        while i < types.len()
            invariant
                0 <= i <= types@.len(),
                meta@ =~= types@.take(i as int).map_values(|t: GeometryType| t.spec_code()),
            decreases types@.len() - i,
        {
            meta.push(types[i].code());
            i = i + 1;
        }
        assert(types@.take(types@.len() as int) =~= types@);
        streams.push(GeoStream { name: GeoStreamName::Meta, data: meta });

        let ghost before = streams@;
        if geom_offsets.len() != 0 {
            let data = encode_root_length_stream(types, geom_offsets, GeometryType::Polygon);
            streams.push(GeoStream { name: GeoStreamName::Geometries, data });
            if part_offsets.len() != 0 {
                if ring_offsets.len() == 0 {
                    let data = encode_level1_without_ring_buffer_length_stream(
                        types,
                        geom_offsets,
                        part_offsets,
                    );
                    streams.push(GeoStream { name: GeoStreamName::NoRings, data });
                } else {
                    let data = encode_level1_length_stream(types, geom_offsets, part_offsets, false);
                    streams.push(GeoStream { name: GeoStreamName::Rings, data });
                    let data = encode_level2_length_stream(
                        types,
                        geom_offsets,
                        part_offsets,
                        ring_offsets,
                    );
                    streams.push(GeoStream { name: GeoStreamName::Rings2, data });
                }
            }
        } else if part_offsets.len() != 0 {
            if ring_offsets.len() == 0 {
                let data = encode_root_length_stream(types, part_offsets, GeometryType::Point);
                streams.push(GeoStream { name: GeoStreamName::NoRings, data });
            } else {
                streams.push(GeoStream { name: GeoStreamName::Geometries, data: Vec::new() });
                let data = encode_root_length_stream(types, part_offsets, GeometryType::LineString);
                streams.push(GeoStream { name: GeoStreamName::Parts, data });
                let mut has_ls = false;
                let mut j: usize = 0;
                while j < types.len()
                    invariant
                        0 <= j <= types@.len(),
                        has_ls == exists|k: int| 0 <= k < j && #[trigger] types@[k].spec_is_linestring(),
                    decreases types@.len() - j,
                {
                    if types[j].is_linestring() {
                        has_ls = true;
                    }
                    j = j + 1;
                }
                assert(has_ls == has_line_string(types@));
                let data = encode_ring_lengths_for_mixed(types, part_offsets, ring_offsets, has_ls);
                streams.push(GeoStream { name: GeoStreamName::PartsRing, data });
            }
        }
        let triangles = opt_as_slice(&self.triangles);
        streams.push(GeoStream { name: GeoStreamName::Triangles, data: vstd::slice::slice_to_vec(triangles) });
        let index_buffer = opt_as_slice(&self.index_buffer);
        streams.push(
            GeoStream { name: GeoStreamName::TrianglesIndexes, data: vstd::slice::slice_to_vec(index_buffer) },
        );
        streams
    }
}

} // verus!
