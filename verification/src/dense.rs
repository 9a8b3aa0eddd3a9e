//! The dense layout that `GeometryValues::from_geoms` produces.
use vstd::prelude::*;

use crate::geom::{Coord32, Geom32};
use crate::model::{
    bump, bump_each, flatten, from_geoms_spec, initial_model, is_line_or_poly, is_multi,
    is_polygonal, lines_coords, lines_offsets, lines_offsets_ok, lines_vertices, or_empty,
    polygon_rings, polygons_rings, polygons_state, polygons_state_ok,
    push_all_spec, push_geom_spec, push_lines_spec, push_multi_point_spec, push_point_spec,
    push_polygons_spec, stripped_rings, tess_apply, init_polygon_offsets_spec, init_offsets_spec,
    any_multi, any_line_or_poly, any_polygonal, EarcutRaw, GeometryModel, RingState,
};
use crate::geometry_type::GeometryType;
use crate::plan::{has_line_string, topology_ok};
use crate::streams::{
    closed_range, level2_ok, nested_lengths_ok, part_range_ok, range_ok, root_lengths_ok,
    selected, steps_non_decreasing, zip_len,
};

verus! {

/// An offset array that starts at 0 and never decreases.
pub open spec fn offsets_wf(s: Seq<u32>) -> bool {
    &&& s.len() > 0
    &&& s[0] == 0
    &&& steps_non_decreasing(s)
}

/// The last entry of the innermost present offset array (ring, then part,
/// then geometry offsets), or the feature count when none is present.
pub open spec fn innermost(m: GeometryModel) -> int {
    match m.ring_offsets {
        Some(r) => r.last() as int,
        None => match m.part_offsets {
            Some(p) => p.last() as int,
            None => match m.geometry_offsets {
                Some(g) => g.last() as int,
                None => m.vector_types.len() as int,
            },
        },
    }
}

/// The dense layout: every present offset array starts at 0 and never
/// decreases; the geometry offsets have one entry per feature plus one; the
/// part offsets one entry per sub-geometry (the last geometry offset, or the
/// feature count) plus one; the ring offsets one entry per part plus one and
/// only alongside part offsets; and the innermost array ends at the number of
/// vertices, which is half the length of the flat vertex buffer.
pub open spec fn is_dense(m: GeometryModel) -> bool {
    let n = m.vector_types.len() as int;
    let nv = or_empty(m.vertices).len() as int;
    &&& nv % 2 == 0
    &&& m.geometry_offsets matches Some(g) ==> offsets_wf(g) && g.len() == n + 1
    &&& m.part_offsets matches Some(p) ==> offsets_wf(p) && p.len() == match m.geometry_offsets {
        Some(g) => g.last() as int,
        None => n,
    } + 1
    &&& m.ring_offsets matches Some(r) ==> offsets_wf(r) && (m.part_offsets matches Some(p)
        && r.len() == p.last() + 1)
    &&& innermost(m) * 2 == nv
}

/// Which offset arrays are present.
pub open spec fn arrays_present(m: GeometryModel, hm: bool, hl: bool, hp: bool) -> bool {
    &&& (m.geometry_offsets is Some) == hm
    &&& (m.part_offsets is Some) == hl
    &&& (m.ring_offsets is Some) == hp
}

/// A geometry whose needs the present arrays cover, and which is not a collection.
pub open spec fn fits(g: Geom32, hm: bool, hl: bool, hp: bool) -> bool {
    &&& !(g is GeometryCollection)
    &&& is_multi(g) ==> hm
    &&& is_line_or_poly(g) ==> hl
    &&& is_polygonal(g) ==> hp
}

/// Total number of coordinates of some lines.
pub open spec fn coord_total(lines: Seq<Seq<Coord32>>) -> int
    decreases lines.len(),
{
    if lines.len() == 0 {
        0
    } else {
        coord_total(lines.drop_last()) + lines.last().len()
    }
}

/// Total number of rings of some polygons.
pub open spec fn ring_total(polys: Seq<Seq<Seq<Coord32>>>) -> int
    decreases polys.len(),
{
    if polys.len() == 0 {
        0
    } else {
        ring_total(polys.drop_last()) + polys.last().len()
    }
}

/// Total number of kept ring coordinates of some polygons.
pub open spec fn polygon_coord_total(polys: Seq<Seq<Seq<Coord32>>>) -> int
    decreases polys.len(),
{
    if polys.len() == 0 {
        0
    } else {
        polygon_coord_total(polys.drop_last()) + coord_total(stripped_rings(polys.last()))
    }
}

proof fn lemma_coord_total_nonneg(lines: Seq<Seq<Coord32>>)
    ensures
        coord_total(lines) >= 0,
    decreases lines.len(),
{
    if lines.len() > 0 {
        lemma_coord_total_nonneg(lines.drop_last());
    }
}

proof fn lemma_flatten_len(cs: Seq<Coord32>)
    ensures
        flatten(cs).len() == 2 * cs.len(),
    decreases cs.len(),
{
    if cs.len() > 0 {
        lemma_flatten_len(cs.drop_last());
    }
}

proof fn lemma_push_wf(s: Seq<u32>, v: u32)
    requires
        offsets_wf(s),
        s.last() <= v,
    ensures
        offsets_wf(s.push(v)),
        s.push(v).len() == s.len() + 1,
        s.push(v).last() == v,
{
    let t = s.push(v);
    assert forall|i: int| 1 <= i < t.len() implies t[i - 1] <= #[trigger] t[i] by {
        if i < s.len() {
            assert(s[i - 1] <= s[i]);
        }
    }
}

proof fn lemma_bump_wf(s: Seq<u32>, d: int)
    requires
        offsets_wf(s),
        0 <= d,
        s.last() + d <= u32::MAX,
    ensures
        bump(Some(s), d) == Some(s.push((s.last() + d) as u32)),
        offsets_wf(bump(Some(s), d).unwrap()),
        bump(Some(s), d).unwrap().len() == s.len() + 1,
        bump(Some(s), d).unwrap().last() == s.last() + d,
{
    lemma_push_wf(s, (s.last() + d) as u32);
}

proof fn lemma_bump_each_wf(s: Seq<u32>, n: int)
    requires
        offsets_wf(s),
        0 <= n,
        n == 0 || s.last() + n <= u32::MAX,
    ensures
        offsets_wf(bump_each(Some(s), n).unwrap()),
        bump_each(Some(s), n).unwrap().len() == s.len() + n,
        bump_each(Some(s), n).unwrap().last() == s.last() + n,
{
    let t = bump_each(Some(s), n).unwrap();
    assert(t =~= s + Seq::new(n as nat, |i: int| (s.last() + i + 1) as u32));
    assert forall|i: int| 1 <= i < t.len() implies t[i - 1] <= #[trigger] t[i] by {
        if i < s.len() {
            assert(s[i - 1] <= s[i]);
        }
    }
    if n == 0 {
        assert(t =~= s);
    }
}

proof fn lemma_lines_wf(o: Seq<u32>, lines: Seq<Seq<Coord32>>)
    requires
        offsets_wf(o),
        lines_offsets_ok(o, lines),
    ensures
        offsets_wf(lines_offsets(o, lines)),
        lines_offsets(o, lines).len() == o.len() + lines.len(),
        lines_offsets(o, lines).last() == o.last() + coord_total(lines),
    decreases lines.len(),
{
    if lines.len() > 0 {
        lemma_lines_wf(o, lines.drop_last());
        let p = lines_offsets(o, lines.drop_last());
        lemma_push_wf(p, (p.last() + lines.last().len()) as u32);
    }
}

proof fn lemma_lines_vertices_len(v: Seq<i32>, lines: Seq<Seq<Coord32>>)
    ensures
        lines_vertices(v, lines).len() == v.len() + 2 * coord_total(lines),
    decreases lines.len(),
{
    if lines.len() > 0 {
        lemma_lines_vertices_len(v, lines.drop_last());
        lemma_flatten_len(lines.last());
    }
}

proof fn lemma_polygons_wf(st: RingState, polys: Seq<Seq<Seq<Coord32>>>)
    requires
        offsets_wf(st.1),
        offsets_wf(st.2),
        polygons_state_ok(st, polys),
    ensures
        offsets_wf(polygons_state(st, polys).1),
        offsets_wf(polygons_state(st, polys).2),
        polygons_state(st, polys).0.len() == st.0.len() + 2 * polygon_coord_total(polys),
        polygons_state(st, polys).1.len() == st.1.len() + ring_total(polys),
        polygons_state(st, polys).1.last() == st.1.last() + polygon_coord_total(polys),
        polygons_state(st, polys).2.len() == st.2.len() + polys.len(),
        polygons_state(st, polys).2.last() == st.2.last() + ring_total(polys),
    decreases polys.len(),
{
    if polys.len() > 0 {
        lemma_polygons_wf(st, polys.drop_last());
        let s = polygons_state(st, polys.drop_last());
        let sr = stripped_rings(polys.last());
        lemma_lines_wf(s.1, sr);
        lemma_lines_vertices_len(s.0, sr);
        lemma_push_wf(s.2, (s.2.last() + sr.len()) as u32);
    }
}

proof fn lemma_tess_keeps(m: GeometryModel, ecs: Seq<EarcutRaw>)
    requires
        tess_apply(m, ecs) is Some,
    ensures
        tess_apply(m, ecs).unwrap().vector_types == m.vector_types,
        tess_apply(m, ecs).unwrap().vertices == m.vertices,
        tess_apply(m, ecs).unwrap().geometry_offsets == m.geometry_offsets,
        tess_apply(m, ecs).unwrap().part_offsets == m.part_offsets,
        tess_apply(m, ecs).unwrap().ring_offsets == m.ring_offsets,
{
}

proof fn lemma_point_dense(m: GeometryModel, c: Coord32, hm: bool, hl: bool, hp: bool)
    requires
        is_dense(m),
        arrays_present(m, hm, hl, hp),
        push_point_spec(m, c) is Some,
    ensures
        is_dense(push_point_spec(m, c).unwrap()),
        arrays_present(push_point_spec(m, c).unwrap(), hm, hl, hp),
{
    if let Some(s) = m.geometry_offsets {
        lemma_bump_wf(s, 1);
    }
    if let Some(s) = m.part_offsets {
        lemma_bump_wf(s, 1);
    }
    if let Some(s) = m.ring_offsets {
        lemma_bump_wf(s, 1);
    }
}

#[verifier::spinoff_prover]
proof fn lemma_multi_point_dense(m: GeometryModel, pts: Seq<Coord32>, hm: bool, hl: bool, hp: bool)
    requires
        hm,
        is_dense(m),
        arrays_present(m, hm, hl, hp),
        push_multi_point_spec(m, pts) is Some,
    ensures
        is_dense(push_multi_point_spec(m, pts).unwrap()),
        arrays_present(push_multi_point_spec(m, pts).unwrap(), hm, hl, hp),
{
    let c = pts.len() as int;
    let m2 = push_multi_point_spec(m, pts).unwrap();
    lemma_flatten_len(pts);
    if let Some(s) = m.geometry_offsets {
        lemma_bump_wf(s, c);
    }
    if let Some(s) = m.part_offsets {
        lemma_bump_each_wf(s, c);
    }
    if let Some(s) = m.ring_offsets {
        lemma_bump_each_wf(s, c);
    }
    let nv = or_empty(m.vertices).len() as int;
    assert(or_empty(m2.vertices).len() == nv + 2 * c);
    assert(innermost(m2) == innermost(m) + c);
    assert((nv + 2 * c) % 2 == 0) by (nonlinear_arith)
        requires
            nv % 2 == 0,
    ;
}

proof fn lemma_lines_dense(
    m: GeometryModel,
    t: GeometryType,
    lines: Seq<Seq<Coord32>>,
    hm: bool,
    hl: bool,
    hp: bool,
)
    requires
        is_dense(m),
        arrays_present(m, hm, hl, hp),
        hp ==> hl,
        hl,
        t == GeometryType::LineString ==> lines.len() == 1,
        t == GeometryType::MultiLineString ==> hm,
        t == GeometryType::LineString || t == GeometryType::MultiLineString,
        push_lines_spec(m, t, lines) is Some,
    ensures
        is_dense(push_lines_spec(m, t, lines).unwrap()),
        arrays_present(push_lines_spec(m, t, lines).unwrap(), hm, hl, hp),
{
    let has_ring = m.ring_offsets is Some;
    let target = if has_ring {
        init_offsets_spec(or_empty(m.ring_offsets))
    } else {
        init_offsets_spec(or_empty(m.part_offsets))
    };
    assert(target == if has_ring {
        m.ring_offsets.unwrap()
    } else {
        m.part_offsets.unwrap()
    });
    lemma_lines_wf(target, lines);
    lemma_lines_vertices_len(or_empty(m.vertices), lines);
    lemma_coord_total_nonneg(lines);
    let c: int = if t == GeometryType::LineString {
        1
    } else {
        lines.len() as int
    };
    if let Some(s) = m.geometry_offsets {
        lemma_bump_wf(s, c);
    }
    if has_ring {
        if t == GeometryType::LineString {
            lemma_bump_wf(m.part_offsets.unwrap(), 1);
        } else {
            lemma_bump_each_wf(m.part_offsets.unwrap(), c);
        }
    }
}

#[verifier::spinoff_prover]
#[verifier::rlimit(40)]
proof fn lemma_polygons_dense(
    m: GeometryModel,
    t: GeometryType,
    polys: Seq<Seq<Seq<Coord32>>>,
    ecs: Seq<EarcutRaw>,
    hm: bool,
    hl: bool,
    hp: bool,
)
    requires
        is_dense(m),
        arrays_present(m, hm, hl, hp),
        hp,
        hl,
        t == GeometryType::Polygon ==> polys.len() == 1,
        t == GeometryType::MultiPolygon ==> hm,
        t == GeometryType::Polygon || t == GeometryType::MultiPolygon,
        push_polygons_spec(m, t, polys, ecs) is Some,
    ensures
        is_dense(push_polygons_spec(m, t, polys, ecs).unwrap()),
        arrays_present(push_polygons_spec(m, t, polys, ecs).unwrap(), hm, hl, hp),
{
    let m1 = init_polygon_offsets_spec(m);
    assert(m1 == m);
    let st: RingState = (
        or_empty(m1.vertices),
        or_empty(m1.ring_offsets),
        or_empty(m1.part_offsets),
    );
    lemma_polygons_wf(st, polys);
    let c: int = if t == GeometryType::Polygon {
        1
    } else {
        polys.len() as int
    };
    let mid = GeometryModel {
        vector_types: m1.vector_types.push(t),
        vertices: Some(polygons_state(st, polys).0),
        ring_offsets: Some(polygons_state(st, polys).1),
        part_offsets: Some(polygons_state(st, polys).2),
        geometry_offsets: bump(m1.geometry_offsets, c),
        ..m1
    };
    lemma_tess_keeps(mid, ecs);
    if let Some(s) = m.geometry_offsets {
        lemma_bump_wf(s, c);
    }
}

/// Appending one geometry that fits the present arrays keeps the layout dense.
proof fn lemma_push_dense(
    m: GeometryModel,
    g: Geom32,
    ecs: Seq<EarcutRaw>,
    hm: bool,
    hl: bool,
    hp: bool,
)
    requires
        is_dense(m),
        arrays_present(m, hm, hl, hp),
        hm ==> hl,
        hp ==> hl,
        fits(g, hm, hl, hp),
        push_geom_spec(m, g, ecs) is Some,
    ensures
        is_dense(push_geom_spec(m, g, ecs).unwrap()),
        arrays_present(push_geom_spec(m, g, ecs).unwrap(), hm, hl, hp),
{
    match g {
        Geom32::Point(c) => lemma_point_dense(m, c, hm, hl, hp),
        Geom32::MultiPoint(pts) => {
            assert(is_multi(g));
            lemma_multi_point_dense(m, pts@, hm, hl, hp)
        },
        Geom32::Line(l) => lemma_lines_dense(
            m,
            GeometryType::LineString,
            seq![seq![l.start, l.end]],
            hm,
            hl,
            hp,
        ),
        Geom32::LineString(ls) => lemma_lines_dense(
            m,
            GeometryType::LineString,
            seq![ls.0@],
            hm,
            hl,
            hp,
        ),
        Geom32::MultiLineString(ls) => lemma_lines_dense(
            m,
            GeometryType::MultiLineString,
            lines_coords(ls@),
            hm,
            hl,
            hp,
        ),
        Geom32::Polygon(p) => lemma_polygons_dense(
            m,
            GeometryType::Polygon,
            seq![polygon_rings(p)],
            ecs,
            hm,
            hl,
            hp,
        ),
        Geom32::Triangle(tr) => lemma_polygons_dense(
            m,
            GeometryType::Polygon,
            seq![seq![tr.spec_ring()]],
            ecs,
            hm,
            hl,
            hp,
        ),
        Geom32::Rect(r) => lemma_polygons_dense(
            m,
            GeometryType::Polygon,
            seq![seq![r.spec_ring()]],
            ecs,
            hm,
            hl,
            hp,
        ),
        Geom32::MultiPolygon(ps) => lemma_polygons_dense(
            m,
            GeometryType::MultiPolygon,
            polygons_rings(ps@),
            ecs,
            hm,
            hl,
            hp,
        ),
        Geom32::GeometryCollection(_) => {},
    }
}

/// Appending geometries that all fit the present arrays keeps the layout dense.
proof fn lemma_push_all_dense(
    m: GeometryModel,
    gs: Seq<Geom32>,
    ecs: Seq<EarcutRaw>,
    hm: bool,
    hl: bool,
    hp: bool,
)
    requires
        is_dense(m),
        arrays_present(m, hm, hl, hp),
        hm ==> hl,
        hp ==> hl,
        forall|i: int| 0 <= i < gs.len() ==> fits(#[trigger] gs[i], hm, hl, hp),
        push_all_spec(m, gs, ecs) is Some,
    ensures
        is_dense(push_all_spec(m, gs, ecs).unwrap()),
        arrays_present(push_all_spec(m, gs, ecs).unwrap(), hm, hl, hp),
    decreases gs.len(),
{
    if gs.len() > 0 {
        let init = gs.subrange(0, gs.len() - 1);
        let k = if m.triangles is Some {
            crate::model::polygon_count_all(init) as int
        } else {
            0
        };
        assert forall|i: int| 0 <= i < init.len() implies fits(#[trigger] init[i], hm, hl, hp) by {
            assert(init[i] == gs[i]);
        }
        lemma_push_all_dense(m, init, ecs.take(k), hm, hl, hp);
        let m1 = push_all_spec(m, init, ecs.take(k)).unwrap();
        assert(fits(gs[gs.len() - 1], hm, hl, hp));
        lemma_push_dense(m1, gs[gs.len() - 1], ecs.skip(k), hm, hl, hp);
    }
}

/// `push_geom` keeps offsets dense once all three offset arrays exist:
/// appending any geometry, geometry collections included, to a dense
/// collection with geometry, part and ring offsets present leaves it dense
/// with all three still present.
pub proof fn lemma_push_geom_keeps_dense(m: GeometryModel, g: Geom32, ecs: Seq<EarcutRaw>)
    requires
        is_dense(m),
        arrays_present(m, true, true, true),
        push_geom_spec(m, g, ecs) is Some,
    ensures
        is_dense(push_geom_spec(m, g, ecs).unwrap()),
        arrays_present(push_geom_spec(m, g, ecs).unwrap(), true, true, true),
    decreases g,
{
    match g {
        Geom32::GeometryCollection(gs) => {
            lemma_push_all_keeps_dense(m, gs@, ecs);
        },
        _ => {
            lemma_push_dense(m, g, ecs, true, true, true);
        },
    }
}

/// Appending geometries in turn to a dense collection with all three offset
/// arrays present leaves it dense with all three still present.
pub proof fn lemma_push_all_keeps_dense(m: GeometryModel, gs: Seq<Geom32>, ecs: Seq<EarcutRaw>)
    requires
        is_dense(m),
        arrays_present(m, true, true, true),
        push_all_spec(m, gs, ecs) is Some,
    ensures
        is_dense(push_all_spec(m, gs, ecs).unwrap()),
        arrays_present(push_all_spec(m, gs, ecs).unwrap(), true, true, true),
    decreases gs,
{
    if gs.len() > 0 {
        let init = gs.subrange(0, gs.len() - 1);
        let k = if m.triangles is Some {
            crate::model::polygon_count_all(init) as int
        } else {
            0
        };
        lemma_push_all_keeps_dense(m, init, ecs.take(k));
        let m1 = push_all_spec(m, init, ecs.take(k)).unwrap();
        lemma_push_geom_keeps_dense(m1, gs[gs.len() - 1], ecs.skip(k));
    }
}

/// No geometry of `gs` is a geometry collection.
pub open spec fn no_collections(gs: Seq<Geom32>) -> bool {
    forall|i: int| 0 <= i < gs.len() ==> !(#[trigger] gs[i] is GeometryCollection)
}

/// `from_geoms` produces dense offsets: for geometries none of which is a
/// geometry collection, the built collection has the dense layout (see
/// [`is_dense`]), whatever the order and mix of geometry types.
pub proof fn lemma_from_geoms_dense(gs: Seq<Geom32>, tessellate: bool, ecs: Seq<EarcutRaw>)
    requires
        no_collections(gs),
        from_geoms_spec(gs, tessellate, ecs) is Some,
    ensures
        is_dense(from_geoms_spec(gs, tessellate, ecs).unwrap()),
{
    let m = initial_model(gs, tessellate);
    let hm = any_multi(gs);
    let hl = any_line_or_poly(gs);
    let hp = any_polygonal(gs);
    if hm {
        let j = choose|j: int| 0 <= j < gs.len() && #[trigger] is_multi(gs[j]);
        assert(is_line_or_poly(gs[j]));
    }
    if hp {
        let j = choose|j: int| 0 <= j < gs.len() && #[trigger] is_polygonal(gs[j]);
        assert(is_line_or_poly(gs[j]));
    }
    assert forall|i: int| 0 <= i < gs.len() implies fits(#[trigger] gs[i], hm, hl, hp) by {
        if is_multi(gs[i]) {
            assert(hm);
        }
        if is_line_or_poly(gs[i]) {
            assert(hl);
        }
        if is_polygonal(gs[i]) {
            assert(hp);
        }
    }
    assert(is_dense(m));
    lemma_push_all_dense(m, gs, ecs, hm, hl, hp);
}

pub(crate) proof fn lemma_sorted(s: Seq<u32>, i: int, j: int)
    requires
        steps_non_decreasing(s),
        0 <= i <= j < s.len(),
    ensures
        s[i] <= s[j],
    decreases j - i,
{
    if i < j {
        lemma_sorted(s, i, j - 1);
        assert(s[j - 1] <= s[j]);
    }
}

proof fn lemma_range_ok(s: Seq<u32>, lo: int, hi: int)
    requires
        steps_non_decreasing(s),
        0 <= lo <= hi < s.len(),
    ensures
        range_ok(s, lo, hi),
{
    let r = closed_range(s, lo, hi);
    assert forall|k: int| 1 <= k < r.len() implies r[k - 1] <= #[trigger] r[k] by {
        assert(s[lo + k - 1] <= s[lo + k]);
    }
}

/// Every selected feature of a dense array pair has a valid window: `outer`
/// has one entry per feature plus one and ends at `inner.len() - 1`.
proof fn lemma_nested_ok(
    types: Seq<GeometryType>,
    outer: Seq<u32>,
    inner: Seq<u32>,
    polygons: bool,
    lines: bool,
)
    requires
        offsets_wf(outer),
        offsets_wf(inner),
        outer.len() == types.len() + 1,
        inner.len() == outer.last() + 1,
    ensures
        nested_lengths_ok(types, outer, inner, polygons, lines),
{
    assert forall|i: int|
        0 <= i < types.len() && #[trigger] selected(types[i], polygons, lines) implies {
        &&& i + 1 < outer.len()
        &&& range_ok(inner, outer[i] as int, outer[i + 1] as int)
    } by {
        lemma_sorted(outer, i, i + 1);
        lemma_sorted(outer, i + 1, outer.len() - 1);
        lemma_range_ok(inner, outer[i] as int, outer[i + 1] as int);
    }
}

proof fn lemma_root_ok(types: Seq<GeometryType>, offsets: Seq<u32>, b: GeometryType)
    requires
        offsets_wf(offsets),
    ensures
        root_lengths_ok(types, offsets, b),
{
    assert forall|i: int|
        0 <= i < zip_len(types, offsets) && #[trigger] types[i].spec_code()
            > b.spec_code() implies offsets[i] <= offsets[i + 1] by {
        lemma_sorted(offsets, i, i + 1);
    }
}

proof fn lemma_level2_ok(types: Seq<GeometryType>, geom: Seq<u32>, part: Seq<u32>, ring: Seq<u32>)
    requires
        offsets_wf(geom),
        offsets_wf(part),
        offsets_wf(ring),
        geom.len() == types.len() + 1,
        part.len() == geom.last() + 1,
        ring.len() == part.last() + 1,
    ensures
        level2_ok(types, geom, part, ring),
{
    assert forall|i: int|
        0 <= i < types.len() && (#[trigger] types[i].spec_is_polygon()
            || types[i].spec_is_linestring()) implies part_range_ok(
        part,
        ring,
        geom[i] as int,
        geom[i + 1] as int,
    ) by {
        lemma_sorted(geom, i + 1, geom.len() - 1);
        assert forall|j: int| geom[i] as int <= j < geom[i + 1] as int implies {
            &&& j + 1 < part.len()
            &&& range_ok(ring, #[trigger] part[j] as int, part[j + 1] as int)
        } by {
            lemma_sorted(part, j, j + 1);
            lemma_sorted(part, j + 1, part.len() - 1);
            lemma_range_ok(ring, part[j] as int, part[j + 1] as int);
        }
    }
}

/// A dense collection can always be turned into its topology streams: every
/// offset window that the length streams read exists and never decreases.
pub proof fn lemma_dense_encodable(m: GeometryModel)
    requires
        is_dense(m),
    ensures
        topology_ok(m),
{
    let types = m.vector_types;
    let geom = or_empty(m.geometry_offsets);
    let part = or_empty(m.part_offsets);
    let ring = or_empty(m.ring_offsets);
    if geom.len() != 0 {
        lemma_root_ok(types, geom, GeometryType::Polygon);
        if part.len() != 0 {
            lemma_nested_ok(types, geom, part, false, true);
            lemma_nested_ok(types, geom, part, true, false);
            if ring.len() != 0 {
                lemma_level2_ok(types, geom, part, ring);
            }
        }
    } else if part.len() != 0 {
        assert(m.geometry_offsets is None);
        lemma_root_ok(types, part, GeometryType::Point);
        lemma_root_ok(types, part, GeometryType::LineString);
        if ring.len() != 0 {
            lemma_nested_ok(types, part, ring, true, has_line_string(types));
        }
    }
}

/// What `from_geoms` builds from geometries none of which is a geometry
/// collection can always be turned into its topology streams.
pub proof fn lemma_from_geoms_encodable(gs: Seq<Geom32>, tessellate: bool, ecs: Seq<EarcutRaw>)
    requires
        no_collections(gs),
        from_geoms_spec(gs, tessellate, ecs) is Some,
    ensures
        topology_ok(from_geoms_spec(gs, tessellate, ecs).unwrap()),
{
    lemma_from_geoms_dense(gs, tessellate, ecs);
    lemma_dense_encodable(from_geoms_spec(gs, tessellate, ecs).unwrap());
}

} // verus!
