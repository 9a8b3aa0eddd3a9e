//! Statements of what the main operations do, over all inputs, in terms of
//! their inputs and results.
use vstd::prelude::*;

use crate::geom::{Geom32, Rect32, Triangle32};
use crate::geometry_type::GeometryType;
use crate::dense::{is_dense, lemma_sorted};
use crate::plan::{geometry_streams_spec, has_line_string, GeoStreamName};
use crate::streams::{closed_range, diffs, level2_lengths, nested_lengths, part_range_lengths};
use crate::meta::{
    parse_from, parse_meta_spec, parse_one_s, read_points_s, GeomShape, META_LINESTRING,
    META_MULTIPOINT, META_POINT,
};
use crate::geom::Coord32;
use crate::staged::StagedProperty;
use crate::tile::{built_column, first_prop, prop_at, PropValue, TileFeature};
use crate::staged::{sort_strategies, EncoderConfig, SortStrategy};
use crate::model::{
    flatten, init_polygon_offsets_spec, lines_offsets, lines_vertices, or_empty, polygon_step,
    polygons_state, push_geom_spec, stripped_rings, strip_closing, GeometryModel, RingState,
};

verus! {

/// Appending a triangle appends one polygon whose single ring holds the
/// triangle's three corners in order: the vertex buffer grows by
/// `t.0.x, t.0.y, t.1.x, t.1.y, t.2.x, t.2.y`, the ring offsets by one entry
/// three past the previous last, and the type list by `Polygon`.
pub proof fn lemma_triangle_appends_its_corners(
    m: GeometryModel,
    t: Triangle32,
    ecs: Seq<crate::model::EarcutRaw>,
)
    requires
        push_geom_spec(m, Geom32::Triangle(t), ecs) is Some,
    ensures
        ({
            let r = push_geom_spec(m, Geom32::Triangle(t), ecs).unwrap();
            let ro = or_empty(init_polygon_offsets_spec(m).ring_offsets);
            &&& r.vertices == Some(
                or_empty(m.vertices) + seq![t.0.x, t.0.y, t.1.x, t.1.y, t.2.x, t.2.y],
            )
            &&& r.ring_offsets == Some(ro.push((ro.last() + 3) as u32))
            &&& r.vector_types == m.vector_types.push(GeometryType::Polygon)
        }),
{
    let ring = seq![t.0, t.1, t.2, t.0];
    assert(t.spec_ring() == ring);
    assert(strip_closing(ring) =~= seq![t.0, t.1, t.2]);
    let sr = stripped_rings(seq![ring]);
    assert(sr =~= seq![seq![t.0, t.1, t.2]]);
    assert(sr.drop_last() =~= Seq::<Seq<crate::geom::Coord32>>::empty());
    let c = seq![t.0, t.1, t.2];
    assert(c.drop_last().drop_last().drop_last() =~= Seq::<crate::geom::Coord32>::empty());
    reveal_with_fuel(flatten, 4);
    assert(flatten(c) =~= seq![t.0.x, t.0.y, t.1.x, t.1.y, t.2.x, t.2.y]);
    let polys = seq![seq![ring]];
    assert(polys.drop_last() =~= Seq::<Seq<Seq<crate::geom::Coord32>>>::empty());
    assert(polys.last() == seq![ring]);
    let m1 = init_polygon_offsets_spec(m);
    let st: RingState = (or_empty(m1.vertices), or_empty(m1.ring_offsets), or_empty(m1.part_offsets));
    assert(polygons_state(st, polys.drop_last()) == st);
    assert(lines_vertices(st.0, sr.drop_last()) == st.0);
    assert(lines_vertices(st.0, sr) == st.0 + flatten(c));
    assert(lines_offsets(st.1, sr.drop_last()) == st.1);
    assert(lines_offsets(st.1, sr) == st.1.push((st.1.last() + 3) as u32));
    assert(polygons_state(st, polys) == polygon_step(st, seq![ring]));
}

/// Consecutive differences of `ring[0..=hi]` split at `mid` into those up
/// to `mid` and those from `mid` on.
proof fn lemma_diffs_split(ring: Seq<u32>, mid: int, hi: int)
    requires
        0 <= mid <= hi < ring.len(),
    ensures
        diffs(ring.subrange(0, hi + 1)) =~= diffs(ring.subrange(0, mid + 1)) + diffs(
            closed_range(ring, mid, hi),
        ),
{
}

/// The vertex-count stream of the first `k` features of a collection without
/// geometry offsets whose features are all polygons or line strings covers
/// the ring offsets up to the `k`-th part offset.
proof fn lemma_parts_ring_prefix(types: Seq<GeometryType>, part: Seq<u32>, ring: Seq<u32>, k: int)
    requires
        0 <= k < part.len(),
        part.len() == types.len() + 1,
        crate::dense::offsets_wf(part),
        ring.len() == part.last() + 1,
        forall|i: int| 0 <= i < types.len() ==> #[trigger] types[i].spec_is_polygon()
            || types[i].spec_is_linestring(),
    ensures
        part[k] < ring.len(),
        nested_lengths(types, part, ring, true, has_line_string(types), k) =~= diffs(
            ring.subrange(0, part[k] + 1),
        ),
    decreases k,
{
    lemma_sorted(part, k, part.len() - 1);
    if k > 0 {
        lemma_parts_ring_prefix(types, part, ring, k - 1);
        lemma_sorted(part, k - 1, k);
        if types[k - 1].spec_is_linestring() {
            assert(has_line_string(types));
        }
        lemma_diffs_split(ring, part[k - 1] as int, part[k] as int);
    } else {
        lemma_sorted(part, 0, 0);
    }
}

/// In a dense collection without geometry offsets, with ring offsets, and
/// whose features are all polygons or line strings, the vertex-count stream
/// (`PartsRing`) holds one entry per ring and line string, the consecutive
/// differences of the whole ring-offset array: every polygon ring and every
/// line string contributes its vertex count.
pub proof fn lemma_parts_ring_counts_every_ring(m: GeometryModel)
    requires
        is_dense(m),
        m.geometry_offsets is None,
        m.ring_offsets is Some,
        forall|i: int| 0 <= i < m.vector_types.len() ==> #[trigger] m.vector_types[i].spec_is_polygon()
            || m.vector_types[i].spec_is_linestring(),
    ensures
        ({
            let ring = or_empty(m.ring_offsets);
            let s = geometry_streams_spec(m)[3];
            &&& s.0 == GeoStreamName::PartsRing
            &&& s.1.len() == ring.len() - 1
            &&& forall|i: int| 0 <= i < s.1.len() ==> #[trigger] s.1[i] == ring[i + 1] - ring[i]
        }),
{
    let types = m.vector_types;
    let part = or_empty(m.part_offsets);
    let ring = or_empty(m.ring_offsets);
    let n = types.len() as int;
    lemma_parts_ring_prefix(types, part, ring, n);
    assert(ring.subrange(0, part[n] + 1) =~= ring);
    lemma_sorted(ring, 0, ring.len() - 1);
    let d = diffs(ring);
    assert forall|i: int| 0 <= i < d.len() implies #[trigger] d[i] == ring[i + 1] - ring[i] by {
        lemma_sorted(ring, i, i + 1);
    }
}

/// Reading `n` points one by one from position `ci` of flat `x0, y0, x1, y1,
/// ...` coordinates takes point `i` from `coords[ci + 2i]` (its x) and
/// `coords[ci + 2i + 1]` (its y), and ends `2n` positions on.
pub proof fn lemma_points_read_x_then_y(coords: Seq<i32>, ci: int, n: nat)
    requires
        read_points_s(coords, ci, n) is Ok,
    ensures
        ({
            let (ps, c) = read_points_s(coords, ci, n).unwrap();
            &&& ps.len() == n
            &&& c == ci + 2 * n
            &&& forall|i: int|
                0 <= i < n ==> #[trigger] ps[i] == Coord32 {
                    x: coords[ci + 2 * i],
                    y: coords[ci + 2 * i + 1],
                }
        }),
    decreases n,
{
    if n > 0 {
        lemma_points_read_x_then_y(coords, ci, (n - 1) as nat);
    }
}

/// Parsing features that are all points from meta position `k` and
/// coordinate position `2k` gives point `j` from `coords[2(k + j)]` (x)
/// and `coords[2(k + j) + 1]` (y).
proof fn lemma_points_from(coords: Seq<i32>, meta: Seq<u32>, k: int)
    requires
        0 <= k <= meta.len(),
        forall|i: int| 0 <= i < meta.len() ==> #[trigger] meta[i] == META_POINT,
        parse_from(coords, meta, 2 * k, k) is Ok,
    ensures
        ({
            let shapes = parse_from(coords, meta, 2 * k, k).unwrap();
            &&& shapes.len() == meta.len() - k
            &&& forall|j: int|
                0 <= j < shapes.len() ==> #[trigger] shapes[j] == GeomShape::Point(
                    Coord32 { x: coords[2 * (k + j)], y: coords[2 * (k + j) + 1] },
                )
        }),
    decreases meta.len() - k,
{
    if k < meta.len() {
        assert(meta[k] == META_POINT);
        lemma_points_from(coords, meta, k + 1);
        assert(2 * k + 2 == 2 * (k + 1));
        let rest = parse_from(coords, meta, 2 * (k + 1), k + 1).unwrap();
        let shapes = parse_from(coords, meta, 2 * k, k).unwrap();
        assert forall|j: int| 0 <= j < shapes.len() implies #[trigger] shapes[j] == GeomShape::Point(
            Coord32 { x: coords[2 * (k + j)], y: coords[2 * (k + j) + 1] },
        ) by {
            if j > 0 {
                assert(shapes[j] == rest[j - 1]);
                assert(2 * (k + 1 + (j - 1)) == 2 * (k + j));
            }
        }
    }
}

/// Flat coordinates are laid out `x0, y0, x1, y1, ...`: when every feature
/// is a point, feature `i` is the point with x `coords[2i]` and y
/// `coords[2i + 1]`.
pub proof fn lemma_points_parse_x_then_y(coords: Seq<i32>, meta: Seq<u32>)
    requires
        forall|i: int| 0 <= i < meta.len() ==> #[trigger] meta[i] == META_POINT,
        parse_meta_spec(coords, meta) is Ok,
    ensures
        ({
            let shapes = parse_meta_spec(coords, meta).unwrap();
            &&& shapes.len() == meta.len()
            &&& forall|i: int|
                0 <= i < shapes.len() ==> #[trigger] shapes[i] == GeomShape::Point(
                    Coord32 { x: coords[2 * i], y: coords[2 * i + 1] },
                )
        }),
{
    lemma_points_from(coords, meta, 0);
}

/// A column and a property value of the same type.
pub open spec fn same_type(p: StagedProperty, q: PropValue) -> bool {
    match (p, q) {
        (StagedProperty::Bool(_), PropValue::Bool(_)) => true,
        (StagedProperty::I8(_), PropValue::I8(_)) => true,
        (StagedProperty::U8(_), PropValue::U8(_)) => true,
        (StagedProperty::I32(_), PropValue::I32(_)) => true,
        (StagedProperty::U32(_), PropValue::U32(_)) => true,
        (StagedProperty::I64(_), PropValue::I64(_)) => true,
        (StagedProperty::U64(_), PropValue::U64(_)) => true,
        (StagedProperty::F32(_), PropValue::F32(_)) => true,
        (StagedProperty::F64(_), PropValue::F64(_)) => true,
        (StagedProperty::Str(_), PropValue::Str(_)) => true,
        _ => false,
    }
}

/// Entry `i` of column `p` is the value of `q` (present or missing as in `q`).
pub open spec fn holds_at(p: StagedProperty, i: int, q: PropValue) -> bool {
    match (p, q) {
        (StagedProperty::Bool(c), PropValue::Bool(v)) => c.values@[i] == v,
        (StagedProperty::I8(c), PropValue::I8(v)) => c.values@[i] == v,
        (StagedProperty::U8(c), PropValue::U8(v)) => c.values@[i] == v,
        (StagedProperty::I32(c), PropValue::I32(v)) => c.values@[i] == v,
        (StagedProperty::U32(c), PropValue::U32(v)) => c.values@[i] == v,
        (StagedProperty::I64(c), PropValue::I64(v)) => c.values@[i] == v,
        (StagedProperty::U64(c), PropValue::U64(v)) => c.values@[i] == v,
        (StagedProperty::F32(c), PropValue::F32(v)) => c.values@[i] == v,
        (StagedProperty::F64(c), PropValue::F64(v)) => c.values@[i] == v,
        (StagedProperty::Str(c), PropValue::Str(v)) => match v {
            Some(s) => c.values@[i] matches Some(t) && t@ == s@,
            None => c.values@[i] is None,
        },
        _ => false,
    }
}

/// The name and length of a column.
pub open spec fn column_shape(p: StagedProperty) -> (String, nat) {
    match p {
        StagedProperty::Bool(c) => (c.name, c.values@.len()),
        StagedProperty::I8(c) => (c.name, c.values@.len()),
        StagedProperty::U8(c) => (c.name, c.values@.len()),
        StagedProperty::I32(c) => (c.name, c.values@.len()),
        StagedProperty::U32(c) => (c.name, c.values@.len()),
        StagedProperty::I64(c) => (c.name, c.values@.len()),
        StagedProperty::U64(c) => (c.name, c.values@.len()),
        StagedProperty::F32(c) => (c.name, c.values@.len()),
        StagedProperty::F64(c) => (c.name, c.values@.len()),
        StagedProperty::Str(c) => (c.name, c.values@.len()),
    }
}

/// A column built from the features in `perm` order is named `name`, has
/// one entry per feature read, and has the type of the first property found
/// in the column (a string column when there is none); every feature whose
/// property has that type keeps its value, present or missing, in its entry.
pub proof fn lemma_built_column_keeps_first_type(
    p: StagedProperty,
    name: String,
    features: Seq<TileFeature>,
    perm: Seq<usize>,
    col: int,
)
    requires
        built_column(p, name, features, perm, col),
    ensures
        column_shape(p) == (name, perm.len()),
        first_prop(features, perm, col) matches Some(q0) ==> same_type(p, q0),
        first_prop(features, perm, col) is None ==> p is Str,
        forall|i: int|
            0 <= i < perm.len() && (#[trigger] prop_at(features[perm[i] as int], col)) is Some
                && same_type(p, prop_at(features[perm[i] as int], col).unwrap()) ==> holds_at(
                p,
                i,
                prop_at(features[perm[i] as int], col).unwrap(),
            ),
{
    assert forall|i: int|
        0 <= i < perm.len() && (#[trigger] prop_at(features[perm[i] as int], col)) is Some
            && same_type(p, prop_at(features[perm[i] as int], col).unwrap()) implies holds_at(
        p,
        i,
        prop_at(features[perm[i] as int], col).unwrap(),
    ) by {
        let q = prop_at(features[perm[i] as int], col);
        match p {
            StagedProperty::Bool(c) => {
                assert(c.values@[i] == crate::tile::bool_of(q));
            },
            StagedProperty::I8(c) => {
                assert(c.values@[i] == crate::tile::i8_of(q));
            },
            StagedProperty::U8(c) => {
                assert(c.values@[i] == crate::tile::u8_of(q));
            },
            StagedProperty::I32(c) => {
                assert(c.values@[i] == crate::tile::i32_of(q));
            },
            StagedProperty::U32(c) => {
                assert(c.values@[i] == crate::tile::u32_of(q));
            },
            StagedProperty::I64(c) => {
                assert(c.values@[i] == crate::tile::i64_of(q));
            },
            StagedProperty::U64(c) => {
                assert(c.values@[i] == crate::tile::u64_of(q));
            },
            StagedProperty::F32(c) => {
                assert(c.values@[i] == crate::tile::f32_of(q));
            },
            StagedProperty::F64(c) => {
                assert(c.values@[i] == crate::tile::f64_of(q));
            },
            StagedProperty::Str(c) => {
                assert(crate::builder::str_values(c.values@)[i] == crate::tile::str_of(q));
                assert(crate::builder::str_values(c.values@).len() == c.values@.len());
                assert(crate::builder::str_values(c.values@)[i] == match c.values@[i] {
                    Some(t) => Some(t@),
                    None => None::<Seq<char>>,
                });
            },
        }
    }
    match p {
        StagedProperty::Str(c) => {
            assert(crate::builder::str_values(c.values@).len() == c.values@.len());
        },
        _ => {},
    }
}

/// The position of a strategy in the fixed trial order.
pub open spec fn trial_rank(s: SortStrategy) -> int {
    match s {
        SortStrategy::Unsorted => 0,
        SortStrategy::SpatialMorton => 1,
        SortStrategy::SpatialHilbert => 2,
        SortStrategy::Id => 3,
    }
}

/// The strategies tried start with the unsorted order and follow the order
/// unsorted, Morton, Hilbert, id without repeats; the id sort is among them
/// exactly when enabled, and each spatial sort exactly when it is enabled
/// and spatial sorting is found worth trying (`spatial_ok`).
pub proof fn lemma_sort_strategies_follow_flags(cfg: EncoderConfig, spatial_ok: bool)
    ensures
        ({
            let s = sort_strategies(cfg, spatial_ok);
            &&& s.len() > 0 && s[0] == SortStrategy::Unsorted
            &&& forall|i: int, j: int|
                0 <= i < j < s.len() ==> trial_rank(#[trigger] s[i]) < trial_rank(#[trigger] s[j])
            &&& s.contains(SortStrategy::Id) == cfg.try_id_sort
            &&& s.contains(SortStrategy::SpatialMorton) == (cfg.try_spatial_morton_sort
                && spatial_ok)
            &&& s.contains(SortStrategy::SpatialHilbert) == (cfg.try_spatial_hilbert_sort
                && spatial_ok)
        }),
{
    let s = sort_strategies(cfg, spatial_ok);
    let m = cfg.try_spatial_morton_sort && spatial_ok;
    let h = cfg.try_spatial_hilbert_sort && spatial_ok;
    let d = cfg.try_id_sort;
    let a: Seq<SortStrategy> = seq![SortStrategy::Unsorted];
    let b: Seq<SortStrategy> = if m { seq![SortStrategy::SpatialMorton] } else { Seq::empty() };
    let c: Seq<SortStrategy> = if h { seq![SortStrategy::SpatialHilbert] } else { Seq::empty() };
    let e: Seq<SortStrategy> = if d { seq![SortStrategy::Id] } else { Seq::empty() };
    assert(s =~= a + b + c + e);
    // The sequence has at most four elements with increasing ranks.
    assert(forall|i: int| 0 <= i < s.len() ==> (#[trigger] s[i] == SortStrategy::Unsorted) == (i == 0));
    assert forall|i: int| 0 <= i < s.len() implies trial_rank(#[trigger] s[i]) >= i by {}
    assert forall|i: int, j: int|
        0 <= i < j < s.len() implies trial_rank(#[trigger] s[i]) < trial_rank(#[trigger] s[j]) by {
        if i == 0 {
        } else if i == 1 {
            if m {
                assert(s[1] == SortStrategy::SpatialMorton);
            } else if h {
                assert(s[1] == SortStrategy::SpatialHilbert);
            }
        } else {
            assert(s[i] != SortStrategy::Id || i == s.len() - 1);
        }
    }
    if d {
        assert(s[s.len() - 1] == SortStrategy::Id);
    } else {
        assert forall|i: int| 0 <= i < s.len() implies #[trigger] s[i] != SortStrategy::Id by {}
    }
    if m {
        assert(s[1] == SortStrategy::SpatialMorton);
    } else {
        assert forall|i: int| 0 <= i < s.len() implies #[trigger] s[i] != SortStrategy::SpatialMorton by {}
    }
    if h {
        assert(s[1 + b.len() as int] == SortStrategy::SpatialHilbert);
    } else {
        assert forall|i: int| 0 <= i < s.len() implies #[trigger] s[i] != SortStrategy::SpatialHilbert by {}
    }
}

/// The ring lengths of parts `lo..hi` are the consecutive differences of
/// the ring offsets from the start of part `lo` to the end of part `hi - 1`.
proof fn lemma_part_range_is_diffs(part: Seq<u32>, ring: Seq<u32>, lo: int, hi: int)
    requires
        0 <= lo <= hi < part.len(),
        crate::streams::steps_non_decreasing(part),
        part.last() < ring.len(),
    ensures
        part[lo] <= part[hi] < ring.len(),
        part_range_lengths(part, ring, lo, hi) =~= diffs(closed_range(ring, part[lo] as int, part[hi] as int)),
    decreases hi - lo,
{
    lemma_sorted(part, hi, part.len() - 1);
    lemma_sorted(part, lo, hi);
    if hi > lo {
        lemma_part_range_is_diffs(part, ring, lo, hi - 1);
        lemma_sorted(part, hi - 1, hi);
        let r = ring.subrange(part[lo] as int, ring.len() as int);
        lemma_diffs_split(r, part[hi - 1] - part[lo], part[hi] - part[lo]);
        assert(r.subrange(0, part[hi] - part[lo] + 1) =~= closed_range(ring, part[lo] as int, part[hi] as int));
        assert(r.subrange(0, part[hi - 1] - part[lo] + 1) =~= closed_range(ring, part[lo] as int, part[hi - 1] as int));
        assert(closed_range(r, part[hi - 1] - part[lo], part[hi] - part[lo]) =~= closed_range(ring, part[hi - 1] as int, part[hi] as int));
    }
}

/// The ring lengths of the first `k` features of a collection whose features
/// are all polygons or line strings cover the ring offsets up to the start
/// of the `k`-th feature's first part.
proof fn lemma_level2_prefix(
    types: Seq<GeometryType>,
    geom: Seq<u32>,
    part: Seq<u32>,
    ring: Seq<u32>,
    k: int,
)
    requires
        0 <= k < geom.len(),
        geom.len() == types.len() + 1,
        crate::dense::offsets_wf(geom),
        crate::dense::offsets_wf(part),
        part.len() == geom.last() + 1,
        ring.len() == part.last() + 1,
        forall|i: int| 0 <= i < types.len() ==> #[trigger] types[i].spec_is_polygon()
            || types[i].spec_is_linestring(),
    ensures
        geom[k] < part.len(),
        part[geom[k] as int] < ring.len(),
        level2_lengths(types, geom, part, ring, k) =~= diffs(
            ring.subrange(0, part[geom[k] as int] + 1),
        ),
    decreases k,
{
    lemma_sorted(geom, k, geom.len() - 1);
    lemma_sorted(part, geom[k] as int, part.len() - 1);
    if k > 0 {
        lemma_level2_prefix(types, geom, part, ring, k - 1);
        lemma_sorted(geom, k - 1, k);
        lemma_part_range_is_diffs(part, ring, geom[k - 1] as int, geom[k] as int);
        lemma_diffs_split(ring, part[geom[k - 1] as int] as int, part[geom[k] as int] as int);
    } else {
        lemma_sorted(part, 0, 0);
    }
}

/// In a dense collection with geometry and ring offsets whose features are
/// all polygons or line strings (single or multi), the vertex-count stream
/// (`Rings2`) holds one entry per ring and line string: the consecutive
/// differences of the whole ring-offset array.
pub proof fn lemma_rings2_counts_every_ring(m: GeometryModel)
    requires
        is_dense(m),
        m.geometry_offsets is Some,
        m.ring_offsets is Some,
        forall|i: int| 0 <= i < m.vector_types.len() ==> #[trigger] m.vector_types[i].spec_is_polygon()
            || m.vector_types[i].spec_is_linestring(),
    ensures
        ({
            let ring = or_empty(m.ring_offsets);
            let s = geometry_streams_spec(m)[3];
            &&& s.0 == GeoStreamName::Rings2
            &&& s.1.len() == ring.len() - 1
            &&& forall|i: int| 0 <= i < s.1.len() ==> #[trigger] s.1[i] == ring[i + 1] - ring[i]
        }),
{
    let types = m.vector_types;
    let geom = or_empty(m.geometry_offsets);
    let part = or_empty(m.part_offsets);
    let ring = or_empty(m.ring_offsets);
    let n = types.len() as int;
    lemma_level2_prefix(types, geom, part, ring, n);
    assert(ring.subrange(0, part[geom[n] as int] + 1) =~= ring);
    let d = diffs(ring);
    assert forall|i: int| 0 <= i < d.len() implies #[trigger] d[i] == ring[i + 1] - ring[i] by {
        lemma_sorted(ring, i, i + 1);
    }
}

/// One feature parsed at coordinate position `ci`: a point is
/// `(coords[ci], coords[ci + 1])`; the `i`-th member of a multi-point and the
/// `i`-th vertex of a line string of `n` coordinates (`n` the next meta entry)
/// are `(coords[ci + 2i], coords[ci + 2i + 1])`; the next feature starts
/// `2` (point) or `2n` positions on.
pub proof fn lemma_feature_coords_x_then_y(coords: Seq<i32>, ci: int, meta: Seq<u32>, mi: int)
    requires
        0 <= mi < meta.len(),
        parse_one_s(coords, ci, meta, mi) is Ok,
    ensures
        ({
            let (g, c2, m2) = parse_one_s(coords, ci, meta, mi).unwrap();
            &&& meta[mi] == META_POINT ==> g == GeomShape::Point(
                Coord32 { x: coords[ci], y: coords[ci + 1] },
            ) && c2 == ci + 2 && m2 == mi + 1
            &&& (meta[mi] == META_MULTIPOINT || meta[mi] == META_LINESTRING) ==> {
                let n = meta[mi + 1] as int;
                let cs = match g {
                    GeomShape::MultiPoint(ps) => ps,
                    GeomShape::LineString(ls) => ls,
                    _ => Seq::empty(),
                };
                &&& mi + 1 < meta.len()
                &&& meta[mi] == META_MULTIPOINT ==> g is MultiPoint
                &&& meta[mi] == META_LINESTRING ==> g is LineString
                &&& cs.len() == n
                &&& c2 == ci + 2 * n
                &&& m2 == mi + 2
                &&& forall|i: int|
                    0 <= i < n ==> #[trigger] cs[i] == Coord32 {
                        x: coords[ci + 2 * i],
                        y: coords[ci + 2 * i + 1],
                    }
            }
        }),
{
    if meta[mi] == META_MULTIPOINT {
        lemma_points_read_x_then_y(coords, ci, meta[mi + 1] as nat);
    }
}

/// Appending a rectangle appends one polygon whose single ring holds the
/// corners `(max.x, min.y)`, `(max.x, max.y)`, `(min.x, max.y)`,
/// `(min.x, min.y)` in that order: the vertex buffer grows by those eight
/// numbers, the ring offsets by one entry four past the previous last, and
/// the type list by `Polygon`.
pub proof fn lemma_rect_appends_its_corners(
    m: GeometryModel,
    r: Rect32,
    ecs: Seq<crate::model::EarcutRaw>,
)
    requires
        push_geom_spec(m, Geom32::Rect(r), ecs) is Some,
    ensures
        ({
            let res = push_geom_spec(m, Geom32::Rect(r), ecs).unwrap();
            let ro = or_empty(init_polygon_offsets_spec(m).ring_offsets);
            &&& res.vertices == Some(
                or_empty(m.vertices) + seq![
                    r.max.x, r.min.y, r.max.x, r.max.y, r.min.x, r.max.y, r.min.x, r.min.y,
                ],
            )
            &&& res.ring_offsets == Some(ro.push((ro.last() + 4) as u32))
            &&& res.vector_types == m.vector_types.push(GeometryType::Polygon)
        }),
{
    let a = Coord32 { x: r.max.x, y: r.min.y };
    let b = Coord32 { x: r.max.x, y: r.max.y };
    let c0 = Coord32 { x: r.min.x, y: r.max.y };
    let d = Coord32 { x: r.min.x, y: r.min.y };
    let ring = seq![a, b, c0, d, a];
    assert(r.spec_ring() == ring);
    let c = seq![a, b, c0, d];
    assert(strip_closing(ring) =~= c);
    let sr = stripped_rings(seq![ring]);
    assert(sr =~= seq![c]);
    assert(sr.drop_last() =~= Seq::<Seq<Coord32>>::empty());
    assert(c.drop_last().drop_last().drop_last().drop_last() =~= Seq::<Coord32>::empty());
    reveal_with_fuel(flatten, 5);
    assert(flatten(c) =~= seq![r.max.x, r.min.y, r.max.x, r.max.y, r.min.x, r.max.y, r.min.x, r.min.y]);
    let polys = seq![seq![ring]];
    assert(polys.drop_last() =~= Seq::<Seq<Seq<Coord32>>>::empty());
    assert(polys.last() == seq![ring]);
    let m1 = init_polygon_offsets_spec(m);
    let st: RingState = (or_empty(m1.vertices), or_empty(m1.ring_offsets), or_empty(m1.part_offsets));
    assert(polygons_state(st, polys.drop_last()) == st);
    assert(lines_vertices(st.0, sr.drop_last()) == st.0);
    assert(lines_vertices(st.0, sr) == st.0 + flatten(c));
    assert(lines_offsets(st.1, sr.drop_last()) == st.1);
    assert(lines_offsets(st.1, sr) == st.1.push((st.1.last() + 4) as u32));
    assert(polygons_state(st, polys) == polygon_step(st, seq![ring]));
}

/// The property a built column takes its type from is the first one found
/// in features read in `perm` order: it is the property of some feature
/// `perm[i]` such that no feature read before it has one; there is none
/// exactly when no feature read has a property in the column.
pub proof fn lemma_first_prop_is_first(features: Seq<TileFeature>, perm: Seq<usize>, col: int)
    ensures
        first_prop(features, perm, col) is None <==> forall|i: int|
            0 <= i < perm.len() ==> #[trigger] prop_at(features[perm[i] as int], col) is None,
        first_prop(features, perm, col) is Some ==> exists|i: int|
            0 <= i < perm.len() && #[trigger] prop_at(features[perm[i] as int], col) == first_prop(
                features,
                perm,
                col,
            ) && forall|j: int| 0 <= j < i ==> #[trigger] prop_at(features[perm[j] as int], col) is None,
    decreases perm.len(),
{
    if perm.len() > 0 {
        let rest = perm.drop_first();
        lemma_first_prop_is_first(features, rest, col);
        assert forall|i: int| 0 <= i < rest.len() implies rest[i] == perm[i + 1] by {}
        if prop_at(features[perm[0] as int], col) is None {
            if first_prop(features, rest, col) is Some {
                let i = choose|i: int|
                    0 <= i < rest.len() && #[trigger] prop_at(features[rest[i] as int], col)
                        == first_prop(features, rest, col) && forall|j: int|
                        0 <= j < i ==> #[trigger] prop_at(features[rest[j] as int], col) is None;
                assert(prop_at(features[perm[i + 1] as int], col) == first_prop(features, perm, col));
                assert forall|j: int| 0 <= j < i + 1 implies #[trigger] prop_at(
                    features[perm[j] as int],
                    col,
                ) is None by {
                    if j > 0 {
                        assert(perm[j] == rest[j - 1]);
                    }
                }
            } else {
                assert forall|i: int| 0 <= i < perm.len() implies #[trigger] prop_at(
                    features[perm[i] as int],
                    col,
                ) is None by {
                    if i > 0 {
                        assert(perm[i] == rest[i - 1]);
                    }
                }
            }
        } else {
            assert(prop_at(features[perm[0] as int], col) == first_prop(features, perm, col));
        }
    }
}

} // verus!
