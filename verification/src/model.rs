//! The mathematical model of a columnar geometry collection and of the
//! effect of appending one geometry to it.
use vstd::prelude::*;

use crate::geom::{Coord32, Geom32, Polygon32};
use crate::geometry_type::GeometryType;

verus! {

/// What the triangulation of one polygon yields: the triangle corner indices
/// into the polygon's own vertex list (three per triangle) and the number of
/// vertices of that list.
#[derive(Debug)]
pub struct EarcutRaw {
    pub triangle_indices: Vec<usize>,
    pub num_vertices: usize,
}

/// The value of a geometry collection: every column as a sequence, `None`
/// where the column is absent.
pub struct GeometryModel {
    pub vector_types: Seq<GeometryType>,
    pub geometry_offsets: Option<Seq<u32>>,
    pub part_offsets: Option<Seq<u32>>,
    pub ring_offsets: Option<Seq<u32>>,
    pub index_buffer: Option<Seq<u32>>,
    pub triangles: Option<Seq<u32>>,
    pub vertices: Option<Seq<i32>>,
}

/// The empty collection with every column absent.
pub open spec fn empty_model() -> GeometryModel {
    GeometryModel {
        vector_types: Seq::empty(),
        geometry_offsets: None,
        part_offsets: None,
        ring_offsets: None,
        index_buffer: None,
        triangles: None,
        vertices: None,
    }
}

/// The view of an optional vector.
pub open spec fn opt_view<T>(o: Option<Vec<T>>) -> Option<Seq<T>> {
    match o {
        Some(v) => Some(v@),
        None => None,
    }
}

/// An optional sequence, reading an absent one as empty.
pub open spec fn or_empty<T>(o: Option<Seq<T>>) -> Seq<T> {
    match o {
        Some(s) => s,
        None => Seq::empty(),
    }
}

/// An offset array that starts with 0: an empty array becomes `[0]`.
pub open spec fn init_offsets_spec(s: Seq<u32>) -> Seq<u32> {
    if s.len() == 0 {
        seq![0u32]
    } else {
        s
    }
}

/// Appends `last + d` to a present offset array.
pub open spec fn bump(o: Option<Seq<u32>>, d: int) -> Option<Seq<u32>> {
    match o {
        Some(s) => Some(s.push((s.last() + d) as u32)),
        None => None,
    }
}

/// A present array has a last element and `last + d` fits in `u32`.
pub open spec fn bump_ok(o: Option<Seq<u32>>, d: int) -> bool {
    match o {
        Some(s) => s.len() > 0 && s.last() + d <= u32::MAX,
        None => true,
    }
}

/// Appends `last + 1, last + 2, ..., last + n` to a present offset array.
pub open spec fn bump_each(o: Option<Seq<u32>>, n: int) -> Option<Seq<u32>> {
    match o {
        Some(s) => Some(s + Seq::new(n as nat, |i: int| (s.last() + i + 1) as u32)),
        None => None,
    }
}

/// `bump_each(o, n)` needs a last element only when it appends anything.
pub open spec fn bump_each_ok(o: Option<Seq<u32>>, n: int) -> bool {
    match o {
        Some(s) => n == 0 || (s.len() > 0 && s.last() + n <= u32::MAX),
        None => true,
    }
}

/// The coordinates laid out flat: `x0, y0, x1, y1, ...`.
pub open spec fn flatten(cs: Seq<Coord32>) -> Seq<i32>
    decreases cs.len(),
{
    if cs.len() == 0 {
        Seq::empty()
    } else {
        flatten(cs.drop_last()) + seq![cs.last().x, cs.last().y]
    }
}

/// Offsets after appending one cumulative entry per line: each entry is the
/// previous last entry plus the line's coordinate count.
pub open spec fn lines_offsets(offs: Seq<u32>, lines: Seq<Seq<Coord32>>) -> Seq<u32>
    decreases lines.len(),
{
    if lines.len() == 0 {
        offs
    } else {
        let o = lines_offsets(offs, lines.drop_last());
        o.push((o.last() + lines.last().len()) as u32)
    }
}

/// None of the cumulative entries of `lines_offsets` exceeds `u32::MAX`.
pub open spec fn lines_offsets_ok(offs: Seq<u32>, lines: Seq<Seq<Coord32>>) -> bool
    decreases lines.len(),
{
    if lines.len() == 0 {
        true
    } else {
        let o = lines_offsets(offs, lines.drop_last());
        lines_offsets_ok(offs, lines.drop_last()) && o.last() + lines.last().len() <= u32::MAX
    }
}

/// The vertex buffer after appending every line's coordinates in order.
pub open spec fn lines_vertices(verts: Seq<i32>, lines: Seq<Seq<Coord32>>) -> Seq<i32>
    decreases lines.len(),
{
    if lines.len() == 0 {
        verts
    } else {
        lines_vertices(verts, lines.drop_last()) + flatten(lines.last())
    }
}

/// A ring without its closing coordinate: when it has more than one
/// coordinate and its last equals its first, the last one is dropped.
pub open spec fn strip_closing(ring: Seq<Coord32>) -> Seq<Coord32> {
    if ring.len() > 1 && ring.last() == ring[0] {
        ring.drop_last()
    } else {
        ring
    }
}

/// The rings of a polygon, exterior first.
pub open spec fn polygon_rings(p: Polygon32) -> Seq<Seq<Coord32>> {
    seq![p.exterior.0@] + p.interiors@.map_values(|r: crate::geom::LineString32| r.0@)
}

/// Rings with their closing coordinates stripped.
pub open spec fn stripped_rings(rings: Seq<Seq<Coord32>>) -> Seq<Seq<Coord32>> {
    rings.map_values(|r: Seq<Coord32>| strip_closing(r))
}

/// Vertex buffer, ring offsets and part offsets.
pub type RingState = (Seq<i32>, Seq<u32>, Seq<u32>);

/// The buffers after appending the rings of one polygon: its stripped
/// coordinates, one ring offset per ring, and one part offset counting its rings.
pub open spec fn polygon_step(st: RingState, rings: Seq<Seq<Coord32>>) -> RingState {
    let sr = stripped_rings(rings);
    (
        lines_vertices(st.0, sr),
        lines_offsets(st.1, sr),
        st.2.push((st.2.last() + sr.len()) as u32),
    )
}

/// `polygon_step` stays within `u32`.
pub open spec fn polygon_step_ok(st: RingState, rings: Seq<Seq<Coord32>>) -> bool {
    let sr = stripped_rings(rings);
    &&& st.1.len() > 0
    &&& st.2.len() > 0
    &&& lines_offsets_ok(st.1, sr)
    &&& st.2.last() + sr.len() <= u32::MAX
}

/// `polygon_step` applied to each polygon in order.
pub open spec fn polygons_state(st: RingState, polys: Seq<Seq<Seq<Coord32>>>) -> RingState
    decreases polys.len(),
{
    if polys.len() == 0 {
        st
    } else {
        polygon_step(polygons_state(st, polys.drop_last()), polys.last())
    }
}

/// Every step of `polygons_state` stays within `u32`.
pub open spec fn polygons_state_ok(st: RingState, polys: Seq<Seq<Seq<Coord32>>>) -> bool
    decreases polys.len(),
{
    if polys.len() == 0 {
        true
    } else {
        polygons_state_ok(st, polys.drop_last()) && polygon_step_ok(
            polygons_state(st, polys.drop_last()),
            polys.last(),
        )
    }
}

/// Triangle indices shifted by `offset`.
pub open spec fn shifted(idx: Seq<usize>, offset: int) -> Seq<u32> {
    Seq::new(idx.len(), |i: int| (idx[i] + offset) as u32)
}

/// A triangulation is well formed: three corner indices per triangle, each
/// naming one of its vertices.
pub open spec fn earcut_valid(e: EarcutRaw) -> bool {
    &&& e.triangle_indices@.len() % 3 == 0
    &&& forall|i: int| 0 <= i < e.triangle_indices@.len() ==> #[trigger] e.triangle_indices@[i] < e.num_vertices
}

/// Every triangulation is well formed.
pub open spec fn earcuts_valid(ecs: Seq<EarcutRaw>) -> bool {
    forall|k: int| 0 <= k < ecs.len() ==> earcut_valid(#[trigger] ecs[k])
}

/// Every part of a run of well-formed triangulations is well formed.
pub(crate) proof fn lemma_earcuts_valid_subrange(ecs: Seq<EarcutRaw>, i: int, j: int)
    requires
        earcuts_valid(ecs),
        0 <= i <= j <= ecs.len(),
    ensures
        earcuts_valid(ecs.subrange(i, j)),
{
    assert forall|k: int| 0 <= k < j - i implies earcut_valid(#[trigger] ecs.subrange(i, j)[k]) by {
        assert(ecs.subrange(i, j)[k] == ecs[i + k]);
    }
}

/// Index buffer, triangle total and vertex offset after tessellating the
/// polygons whose triangulations are `ecs`.
pub open spec fn tess_state(ib: Seq<u32>, ecs: Seq<EarcutRaw>) -> (Seq<u32>, int, int)
    decreases ecs.len(),
{
    if ecs.len() == 0 {
        (ib, 0, 0)
    } else {
        let s = tess_state(ib, ecs.drop_last());
        let e = ecs.last();
        (
            s.0 + shifted(e.triangle_indices@, s.2),
            s.1 + e.triangle_indices@.len() / 3,
            s.2 + e.num_vertices,
        )
    }
}

/// Every count and shifted index of `tess_state` fits in `u32`.
pub open spec fn tess_ok(ib: Seq<u32>, ecs: Seq<EarcutRaw>) -> bool
    decreases ecs.len(),
{
    if ecs.len() == 0 {
        true
    } else {
        let s = tess_state(ib, ecs.drop_last());
        let e = ecs.last();
        &&& tess_ok(ib, ecs.drop_last())
        &&& e.triangle_indices@.len() / 3 <= u32::MAX
        &&& e.num_vertices <= u32::MAX
        &&& forall|i: int|
            0 <= i < e.triangle_indices@.len() ==> #[trigger] e.triangle_indices@[i] + s.2
                <= u32::MAX
        &&& s.1 + e.triangle_indices@.len() / 3 <= u32::MAX
        &&& s.2 + e.num_vertices <= u32::MAX
    }
}

/// Records the tessellation of one feature when tessellation is on: the
/// shifted indices go to the index buffer, the triangle total to `triangles`.
pub open spec fn tess_apply(m: GeometryModel, ecs: Seq<EarcutRaw>) -> Option<GeometryModel> {
    match m.triangles {
        Some(t) => {
            let ib = or_empty(m.index_buffer);
            let s = tess_state(ib, ecs);
            if tess_ok(ib, ecs) {
                Some(
                    GeometryModel {
                        index_buffer: Some(s.0),
                        triangles: Some(t.push(s.1 as u32)),
                        ..m
                    },
                )
            } else {
                None
            }
        },
        None => Some(m),
    }
}

/// Appends a point: one vertex and `+1` in every present offset array.
pub open spec fn push_point_spec(m: GeometryModel, c: Coord32) -> Option<GeometryModel> {
    if bump_ok(m.geometry_offsets, 1) && bump_ok(m.part_offsets, 1) && bump_ok(m.ring_offsets, 1) {
        Some(
            GeometryModel {
                vector_types: m.vector_types.push(GeometryType::Point),
                vertices: Some(or_empty(m.vertices) + seq![c.x, c.y]),
                geometry_offsets: bump(m.geometry_offsets, 1),
                part_offsets: bump(m.part_offsets, 1),
                ring_offsets: bump(m.ring_offsets, 1),
                ..m
            },
        )
    } else {
        None
    }
}

/// Appends line strings of type `t`: their coordinates, one vertex count per
/// line in the ring offsets (when present) or else the part offsets, `+count`
/// in the geometry offsets and, with rings, `+1` per line in the part offsets.
pub open spec fn push_lines_spec(
    m: GeometryModel,
    t: GeometryType,
    lines: Seq<Seq<Coord32>>,
) -> Option<GeometryModel> {
    let has_ring = m.ring_offsets is Some;
    let target = if has_ring {
        init_offsets_spec(or_empty(m.ring_offsets))
    } else {
        init_offsets_spec(or_empty(m.part_offsets))
    };
    let count = lines.len() as int;
    let single = t == GeometryType::LineString;
    let geom_d: int = if single {
        1
    } else {
        count
    };
    let new_target = lines_offsets(target, lines);
    let ok = lines_offsets_ok(target, lines) && count <= u32::MAX && bump_ok(
        m.geometry_offsets,
        geom_d,
    ) && (has_ring ==> if single {
        bump_ok(m.part_offsets, 1)
    } else {
        bump_each_ok(m.part_offsets, count)
    });
    if ok {
        Some(
            GeometryModel {
                vector_types: m.vector_types.push(t),
                vertices: Some(lines_vertices(or_empty(m.vertices), lines)),
                geometry_offsets: bump(m.geometry_offsets, geom_d),
                ring_offsets: if has_ring {
                    Some(new_target)
                } else {
                    m.ring_offsets
                },
                part_offsets: if has_ring {
                    if single {
                        bump(m.part_offsets, 1)
                    } else {
                        bump_each(m.part_offsets, count)
                    }
                } else {
                    Some(new_target)
                },
                ..m
            },
        )
    } else {
        None
    }
}

/// The ring and part offsets after preparing for a polygon: line-string
/// vertex counts move from the part offsets to the ring offsets when there
/// are no ring offsets yet, and both arrays start with 0.
pub open spec fn init_polygon_offsets_spec(m: GeometryModel) -> GeometryModel {
    let (r, p) = if m.ring_offsets is None && m.part_offsets is Some {
        (m.part_offsets, None::<Seq<u32>>)
    } else {
        (m.ring_offsets, m.part_offsets)
    };
    GeometryModel {
        ring_offsets: Some(init_offsets_spec(or_empty(r))),
        part_offsets: Some(init_offsets_spec(or_empty(p))),
        ..m
    }
}

/// Appends polygons of type `t` (each given by its rings) with the
/// triangulations `ecs` of the polygons (used only when tessellating).
pub open spec fn push_polygons_spec(
    m: GeometryModel,
    t: GeometryType,
    polys: Seq<Seq<Seq<Coord32>>>,
    ecs: Seq<EarcutRaw>,
) -> Option<GeometryModel> {
    let m1 = init_polygon_offsets_spec(m);
    let st: RingState = (
        or_empty(m1.vertices),
        or_empty(m1.ring_offsets),
        or_empty(m1.part_offsets),
    );
    let r = polygons_state(st, polys);
    let geom_d: int = if t == GeometryType::Polygon {
        1
    } else {
        polys.len() as int
    };
    if polygons_state_ok(st, polys) && polys.len() <= u32::MAX && bump_ok(
        m1.geometry_offsets,
        geom_d,
    ) {
        tess_apply(
            GeometryModel {
                vector_types: m1.vector_types.push(t),
                vertices: Some(r.0),
                ring_offsets: Some(r.1),
                part_offsets: Some(r.2),
                geometry_offsets: bump(m1.geometry_offsets, geom_d),
                ..m1
            },
            ecs,
        )
    } else {
        None
    }
}

/// Appends a multi-point: its coordinates, `+count` in the geometry offsets
/// and `+1` per point in the part and ring offsets.
pub open spec fn push_multi_point_spec(m: GeometryModel, pts: Seq<Coord32>) -> Option<
    GeometryModel,
> {
    let count = pts.len() as int;
    if count <= u32::MAX && bump_ok(m.geometry_offsets, count) && bump_each_ok(
        m.part_offsets,
        count,
    ) && bump_each_ok(m.ring_offsets, count) {
        Some(
            GeometryModel {
                vector_types: m.vector_types.push(GeometryType::MultiPoint),
                vertices: Some(or_empty(m.vertices) + flatten(pts)),
                geometry_offsets: bump(m.geometry_offsets, count),
                part_offsets: bump_each(m.part_offsets, count),
                ring_offsets: bump_each(m.ring_offsets, count),
                ..m
            },
        )
    } else {
        None
    }
}

/// Number of polygons in a geometry: one for a polygon, rectangle or
/// triangle, the member count of a multi-polygon, the sum over a collection.
pub open spec fn polygon_count(g: Geom32) -> nat
    decreases g,
{
    match g {
        Geom32::Polygon(_) => 1,
        Geom32::Rect(_) => 1,
        Geom32::Triangle(_) => 1,
        Geom32::MultiPolygon(ps) => ps@.len(),
        Geom32::GeometryCollection(gs) => polygon_count_all(gs@),
        _ => 0,
    }
}

/// Sum of `polygon_count` over a sequence of geometries.
pub open spec fn polygon_count_all(gs: Seq<Geom32>) -> nat
    decreases gs,
{
    if gs.len() == 0 {
        0
    } else {
        polygon_count_all(gs.subrange(0, gs.len() - 1)) + polygon_count(gs[gs.len() - 1])
    }
}

/// Number of triangulations a geometry consumes: its polygon count when
/// tessellating, none otherwise.
pub open spec fn earcuts_needed(tessellating: bool, g: Geom32) -> nat {
    if tessellating {
        polygon_count(g)
    } else {
        0
    }
}

/// The rings of each member of a multi-polygon.
pub open spec fn polygons_rings(ps: Seq<Polygon32>) -> Seq<Seq<Seq<Coord32>>> {
    ps.map_values(|p: Polygon32| polygon_rings(p))
}

/// The coordinates of each line string.
pub open spec fn lines_coords(ls: Seq<crate::geom::LineString32>) -> Seq<Seq<Coord32>> {
    ls.map_values(|l: crate::geom::LineString32| l.0@)
}

/// The collection after appending `g` (members of a geometry collection are
/// appended one by one as features of their own), or `None` where appending
/// would fault. `ecs` are the triangulations of the polygons of `g`, in order.
pub open spec fn push_geom_spec(m: GeometryModel, g: Geom32, ecs: Seq<EarcutRaw>) -> Option<
    GeometryModel,
>
    decreases g,
{
    match g {
        Geom32::Point(c) => push_point_spec(m, c),
        Geom32::Line(l) => push_lines_spec(m, GeometryType::LineString, seq![seq![l.start, l.end]]),
        Geom32::LineString(ls) => push_lines_spec(m, GeometryType::LineString, seq![ls.0@]),
        Geom32::Polygon(p) => push_polygons_spec(
            m,
            GeometryType::Polygon,
            seq![polygon_rings(p)],
            ecs,
        ),
        Geom32::MultiPoint(pts) => push_multi_point_spec(m, pts@),
        Geom32::MultiLineString(ls) => push_lines_spec(
            m,
            GeometryType::MultiLineString,
            lines_coords(ls@),
        ),
        Geom32::MultiPolygon(ps) => push_polygons_spec(
            m,
            GeometryType::MultiPolygon,
            polygons_rings(ps@),
            ecs,
        ),
        Geom32::Triangle(t) => push_polygons_spec(
            m,
            GeometryType::Polygon,
            seq![seq![t.spec_ring()]],
            ecs,
        ),
        Geom32::Rect(r) => push_polygons_spec(
            m,
            GeometryType::Polygon,
            seq![seq![r.spec_ring()]],
            ecs,
        ),
        Geom32::GeometryCollection(gs) => push_all_spec(m, gs@, ecs),
    }
}

/// `push_geom_spec` applied to each geometry in order, each consuming its
/// share of `ecs`.
pub open spec fn push_all_spec(m: GeometryModel, gs: Seq<Geom32>, ecs: Seq<EarcutRaw>) -> Option<
    GeometryModel,
>
    decreases gs,
{
    if gs.len() == 0 {
        Some(m)
    } else {
        let init = gs.subrange(0, gs.len() - 1);
        let k = if m.triangles is Some {
            polygon_count_all(init) as int
        } else {
            0
        };
        match push_all_spec(m, init, ecs.take(k)) {
            Some(m1) => push_geom_spec(m1, gs[gs.len() - 1], ecs.skip(k)),
            None => None,
        }
    }
}

/// Appending a geometry keeps whether tessellation is on.
pub proof fn lemma_push_keeps_tessellation(m: GeometryModel, g: Geom32, ecs: Seq<EarcutRaw>)
    requires
        push_geom_spec(m, g, ecs) is Some,
    ensures
        push_geom_spec(m, g, ecs).unwrap().triangles is Some <==> m.triangles is Some,
    decreases g,
{
    match g {
        Geom32::GeometryCollection(gs) => {
            lemma_push_all_keeps_tessellation(m, gs@, ecs);
        },
        _ => {},
    }
}

/// Appending a sequence of geometries keeps whether tessellation is on.
pub proof fn lemma_push_all_keeps_tessellation(
    m: GeometryModel,
    gs: Seq<Geom32>,
    ecs: Seq<EarcutRaw>,
)
    requires
        push_all_spec(m, gs, ecs) is Some,
    ensures
        push_all_spec(m, gs, ecs).unwrap().triangles is Some <==> m.triangles is Some,
    decreases gs,
{
    if gs.len() > 0 {
        let init = gs.subrange(0, gs.len() - 1);
        let k = if m.triangles is Some {
            polygon_count_all(init) as int
        } else {
            0
        };
        lemma_push_all_keeps_tessellation(m, init, ecs.take(k));
        let m1 = push_all_spec(m, init, ecs.take(k)).unwrap();
        lemma_push_keeps_tessellation(m1, gs[gs.len() - 1], ecs.skip(k));
    }
}

/// The polygon count of a prefix grows by the count of the next geometry.
pub proof fn lemma_polygon_count_step(gs: Seq<Geom32>, i: int)
    requires
        0 <= i < gs.len(),
    ensures
        polygon_count_all(gs.take(i + 1)) == polygon_count_all(gs.take(i)) + polygon_count(gs[i]),
{
    assert(gs.take(i + 1).subrange(0, i) =~= gs.take(i));
}

/// Polygon counts of prefixes grow with the prefix.
pub proof fn lemma_polygon_count_mono(gs: Seq<Geom32>, i: int, j: int)
    requires
        0 <= i <= j <= gs.len(),
    ensures
        polygon_count_all(gs.take(i)) <= polygon_count_all(gs.take(j)),
        polygon_count_all(gs.take(gs.len() as int)) == polygon_count_all(gs),
    decreases j - i,
{
    assert(gs.take(gs.len() as int) =~= gs);
    if i < j {
        lemma_polygon_count_mono(gs, i, j - 1);
        lemma_polygon_count_step(gs, j - 1);
    }
}

/// The triangulations a prefix of a collection consumes.
pub open spec fn prefix_earcuts(tessellating: bool, gs: Seq<Geom32>, i: int) -> int {
    if tessellating {
        polygon_count_all(gs.take(i)) as int
    } else {
        0
    }
}

/// When appending a whole sequence does not fault, appending any prefix with
/// its share of the triangulations does not fault either.
pub proof fn lemma_push_all_prefix(m: GeometryModel, gs: Seq<Geom32>, ecs: Seq<EarcutRaw>, i: int)
    requires
        0 <= i <= gs.len(),
        push_all_spec(m, gs, ecs) is Some,
        ecs.len() == prefix_earcuts(m.triangles is Some, gs, gs.len() as int),
    ensures
        push_all_spec(m, gs.take(i), ecs.take(prefix_earcuts(m.triangles is Some, gs, i))) is Some,
    decreases gs.len(),
{
    let tri = m.triangles is Some;
    lemma_polygon_count_mono(gs, i, gs.len() as int);
    if i == gs.len() {
        assert(gs.take(i) =~= gs);
        assert(ecs.take(prefix_earcuts(tri, gs, i)) =~= ecs);
    } else {
        let init = gs.subrange(0, gs.len() - 1);
        let k = prefix_earcuts(tri, gs, gs.len() - 1);
        assert(init =~= gs.take(gs.len() - 1));
        lemma_polygon_count_mono(gs, i, gs.len() - 1);
        lemma_polygon_count_mono(init, i, init.len() as int);
        assert(init.take(i) =~= gs.take(i));
        assert(prefix_earcuts(tri, init, init.len() as int) == k);
        lemma_push_all_prefix(m, init, ecs.take(k), i);
        assert(ecs.take(k).take(prefix_earcuts(tri, gs, i)) =~= ecs.take(
            prefix_earcuts(tri, gs, i),
        ));
    }
}

/// A multi-point, multi-line-string or multi-polygon.
pub open spec fn is_multi(g: Geom32) -> bool {
    g is MultiPoint || g is MultiLineString || g is MultiPolygon
}

/// A geometry that needs part offsets: a multi-geometry, a line, a line
/// string, a polygon, a triangle or a rectangle.
pub open spec fn is_line_or_poly(g: Geom32) -> bool {
    is_multi(g) || g is LineString || g is Line || g is Polygon || g is Triangle || g is Rect
}

/// A geometry that needs ring offsets: a polygon, triangle, rectangle or multi-polygon.
pub open spec fn is_polygonal(g: Geom32) -> bool {
    g is MultiPolygon || g is Polygon || g is Triangle || g is Rect
}

/// Some geometry of `gs` is a multi-geometry.
pub open spec fn any_multi(gs: Seq<Geom32>) -> bool {
    exists|i: int| 0 <= i < gs.len() && #[trigger] is_multi(gs[i])
}

/// Some geometry of `gs` needs part offsets.
pub open spec fn any_line_or_poly(gs: Seq<Geom32>) -> bool {
    exists|i: int| 0 <= i < gs.len() && #[trigger] is_line_or_poly(gs[i])
}

/// Some geometry of `gs` needs ring offsets.
pub open spec fn any_polygonal(gs: Seq<Geom32>) -> bool {
    exists|i: int| 0 <= i < gs.len() && #[trigger] is_polygonal(gs[i])
}

/// The scan flags of a prefix grow by those of the next geometry.
pub proof fn lemma_any_step(gs: Seq<Geom32>, i: int)
    requires
        0 <= i < gs.len(),
    ensures
        any_multi(gs.take(i + 1)) == (any_multi(gs.take(i)) || is_multi(gs[i])),
        any_line_or_poly(gs.take(i + 1)) == (any_line_or_poly(gs.take(i)) || is_line_or_poly(
            gs[i],
        )),
        any_polygonal(gs.take(i + 1)) == (any_polygonal(gs.take(i)) || is_polygonal(gs[i])),
{
    let t = gs.take(i + 1);
    let p = gs.take(i);
    assert(t[i] == gs[i]);
    assert forall|j: int| 0 <= j < i implies t[j] == p[j] by {}
    if any_multi(t) {
        let j = choose|j: int| 0 <= j < t.len() && #[trigger] is_multi(t[j]);
        if j < i {
            assert(is_multi(p[j]));
        }
    }
    if any_line_or_poly(t) {
        let j = choose|j: int| 0 <= j < t.len() && #[trigger] is_line_or_poly(t[j]);
        if j < i {
            assert(is_line_or_poly(p[j]));
        }
    }
    if any_polygonal(t) {
        let j = choose|j: int| 0 <= j < t.len() && #[trigger] is_polygonal(t[j]);
        if j < i {
            assert(is_polygonal(p[j]));
        }
    }
    if any_multi(p) {
        let j = choose|j: int| 0 <= j < p.len() && #[trigger] is_multi(p[j]);
        assert(is_multi(t[j]));
    }
    if any_line_or_poly(p) {
        let j = choose|j: int| 0 <= j < p.len() && #[trigger] is_line_or_poly(p[j]);
        assert(is_line_or_poly(t[j]));
    }
    if any_polygonal(p) {
        let j = choose|j: int| 0 <= j < p.len() && #[trigger] is_polygonal(p[j]);
        assert(is_polygonal(t[j]));
    }
}

/// The collection `from_geoms` starts from: empty, with `triangles` present
/// when tessellating, and each offset array present as `[0]` when some
/// geometry of `gs` (looking at the top level only) needs it.
pub open spec fn initial_model(gs: Seq<Geom32>, tessellate: bool) -> GeometryModel {
    GeometryModel {
        triangles: if tessellate {
            Some(Seq::empty())
        } else {
            None
        },
        geometry_offsets: if any_multi(gs) {
            Some(seq![0u32])
        } else {
            None
        },
        part_offsets: if any_line_or_poly(gs) {
            Some(seq![0u32])
        } else {
            None
        },
        ring_offsets: if any_polygonal(gs) {
            Some(seq![0u32])
        } else {
            None
        },
        ..empty_model()
    }
}

/// The collection built from `gs`: the initial collection with every
/// geometry appended in order.
pub open spec fn from_geoms_spec(gs: Seq<Geom32>, tessellate: bool, ecs: Seq<EarcutRaw>) -> Option<
    GeometryModel,
> {
    push_all_spec(initial_model(gs, tessellate), gs, ecs)
}

/// The collection after recording, in order, the tessellation of each
/// polygon feature whose triangulations are `ecs[k]`.
pub open spec fn tessellate_all(m: GeometryModel, ecs: Seq<Vec<EarcutRaw>>) -> Option<GeometryModel>
    decreases ecs.len(),
{
    if ecs.len() == 0 {
        Some(m)
    } else {
        match tessellate_all(m, ecs.drop_last()) {
            Some(m1) => tess_apply(m1, ecs.last()@),
            None => None,
        }
    }
}

/// Tessellation of an untessellated collection: `triangles` becomes present
/// and every polygon feature is tessellated; a tessellated one is unchanged.
pub open spec fn compute_tessellation_spec(m: GeometryModel, ecs: Seq<Vec<EarcutRaw>>) -> Option<
    GeometryModel,
> {
    if m.triangles is Some {
        Some(m)
    } else {
        tessellate_all(GeometryModel { triangles: Some(Seq::empty()), ..m }, ecs)
    }
}

} // verus!
