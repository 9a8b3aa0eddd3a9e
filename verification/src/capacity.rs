//! When building a geometry column cannot fault: a size measure of the
//! geometries that bounds every offset the columns hold, the law that
//! building never faults while the measure fits in `u32`, and a check of it.
use vstd::prelude::*;

use crate::dense::{coord_total, polygon_coord_total, ring_total};
use crate::geom::{Coord32, Geom32, LineString32, Polygon32};
use crate::model::{
    bump, bump_each, from_geoms_spec, init_offsets_spec, init_polygon_offsets_spec, initial_model,
    lines_coords, lines_offsets, lines_offsets_ok, or_empty, polygon_rings,
    polygons_rings, polygons_state, polygons_state_ok, push_all_spec, push_geom_spec,
    stripped_rings, strip_closing, GeometryModel, RingState,
};

verus! {

/// The size of some rings or lines: how many there are plus their coordinates.
pub open spec fn rings_size(rings: Seq<Seq<Coord32>>) -> int {
    rings.len() + coord_total(rings)
}

/// The size of some polygons: the sizes of their rings.
pub open spec fn polys_size(polys: Seq<Seq<Seq<Coord32>>>) -> int
    decreases polys.len(),
{
    if polys.len() == 0 {
        0
    } else {
        polys_size(polys.drop_last()) + rings_size(polys.last())
    }
}

/// The size of a geometry: one, plus its parts and coordinates (a
/// collection: the sizes of its members). No offset that appending the
/// geometry adds exceeds the previous last offset by more.
pub open spec fn geom_size(g: Geom32) -> int
    decreases g,
{
    match g {
        Geom32::Point(_) => 1,
        Geom32::Line(l) => 1 + rings_size(seq![seq![l.start, l.end]]),
        Geom32::LineString(ls) => 1 + rings_size(seq![ls.0@]),
        Geom32::Polygon(p) => 1 + rings_size(polygon_rings(p)),
        Geom32::MultiPoint(pts) => 1 + pts@.len() as int,
        Geom32::MultiLineString(ls) => 1 + rings_size(lines_coords(ls@)),
        Geom32::MultiPolygon(ps) => 1 + ps@.len() as int + polys_size(polygons_rings(ps@)),
        Geom32::Rect(r) => 1 + rings_size(seq![r.spec_ring()]),
        Geom32::Triangle(t) => 1 + rings_size(seq![t.spec_ring()]),
        Geom32::GeometryCollection(gs) => geoms_size(gs@),
    }
}

/// The total size of some geometries.
pub open spec fn geoms_size(gs: Seq<Geom32>) -> int
    decreases gs,
{
    if gs.len() == 0 {
        0
    } else {
        geoms_size(gs.subrange(0, gs.len() - 1)) + geom_size(gs[gs.len() - 1])
    }
}

/// A present offset array is non-empty and ends at most at `s`.
pub open spec fn array_within(o: Option<Seq<u32>>, s: int) -> bool {
    o matches Some(a) ==> a.len() > 0 && a.last() <= s
}

/// An untessellated collection whose offset arrays all end at most at `s`.
pub open spec fn offsets_within(m: GeometryModel, s: int) -> bool {
    &&& m.triangles is None
    &&& array_within(m.geometry_offsets, s)
    &&& array_within(m.part_offsets, s)
    &&& array_within(m.ring_offsets, s)
}

pub(crate) proof fn lemma_coord_total_nonneg(lines: Seq<Seq<Coord32>>)
    ensures
        coord_total(lines) >= 0,
    decreases lines.len(),
{
    if lines.len() > 0 {
        lemma_coord_total_nonneg(lines.drop_last());
    }
}

proof fn lemma_polys_size_nonneg(polys: Seq<Seq<Seq<Coord32>>>)
    ensures
        polys_size(polys) >= 0,
    decreases polys.len(),
{
    if polys.len() > 0 {
        lemma_polys_size_nonneg(polys.drop_last());
        lemma_coord_total_nonneg(polys.last());
    }
}

proof fn lemma_geom_size_nonneg(g: Geom32)
    ensures
        geom_size(g) >= 1 || g is GeometryCollection,
        geom_size(g) >= 0,
    decreases g,
{
    match g {
        Geom32::Line(l) => lemma_coord_total_nonneg(seq![seq![l.start, l.end]]),
        Geom32::LineString(ls) => lemma_coord_total_nonneg(seq![ls.0@]),
        Geom32::Polygon(p) => lemma_coord_total_nonneg(polygon_rings(p)),
        Geom32::MultiLineString(ls) => lemma_coord_total_nonneg(lines_coords(ls@)),
        Geom32::MultiPolygon(ps) => lemma_polys_size_nonneg(polygons_rings(ps@)),
        Geom32::Rect(r) => lemma_coord_total_nonneg(seq![r.spec_ring()]),
        Geom32::Triangle(t) => lemma_coord_total_nonneg(seq![t.spec_ring()]),
        Geom32::GeometryCollection(gs) => lemma_geoms_size_nonneg(gs@),
        _ => {},
    }
}

proof fn lemma_geoms_size_nonneg(gs: Seq<Geom32>)
    ensures
        geoms_size(gs) >= 0,
    decreases gs,
{
    if gs.len() > 0 {
        lemma_geoms_size_nonneg(gs.subrange(0, gs.len() - 1));
        lemma_geom_size_nonneg(gs[gs.len() - 1]);
    }
}

/// Stripping closing coordinates never adds any.
pub(crate) proof fn lemma_stripped_total(rings: Seq<Seq<Coord32>>)
    ensures
        coord_total(stripped_rings(rings)) <= coord_total(rings),
        stripped_rings(rings).len() == rings.len(),
    decreases rings.len(),
{
    if rings.len() > 0 {
        assert(stripped_rings(rings).drop_last() =~= stripped_rings(rings.drop_last()));
        lemma_stripped_total(rings.drop_last());
        assert(strip_closing(rings.last()).len() <= rings.last().len());
    }
}

/// Ring and kept-coordinate totals of polygons are bounded by their size.
pub(crate) proof fn lemma_polys_totals(polys: Seq<Seq<Seq<Coord32>>>)
    ensures
        ring_total(polys) <= polys_size(polys),
        polygon_coord_total(polys) <= polys_size(polys),
        ring_total(polys) >= 0,
        polygon_coord_total(polys) >= 0,
    decreases polys.len(),
{
    if polys.len() > 0 {
        lemma_polys_totals(polys.drop_last());
        lemma_stripped_total(polys.last());
        lemma_coord_total_nonneg(polys.last());
        lemma_coord_total_nonneg(stripped_rings(polys.last()));
    }
}

/// Appending lines to a non-empty offset array never faults while the
/// coordinates fit, and ends it at its old end plus their count.
pub(crate) proof fn lemma_lines_fit(o: Seq<u32>, lines: Seq<Seq<Coord32>>)
    requires
        o.len() > 0,
        o.last() + coord_total(lines) <= u32::MAX,
    ensures
        lines_offsets_ok(o, lines),
        lines_offsets(o, lines).len() > 0,
        lines_offsets(o, lines).last() == o.last() + coord_total(lines),
    decreases lines.len(),
{
    if lines.len() > 0 {
        lemma_coord_total_nonneg(lines.drop_last());
        lemma_lines_fit(o, lines.drop_last());
    }
}

/// Appending polygons never faults while their rings and kept coordinates
/// fit, and ends the ring and part offsets at their old ends plus those.
pub(crate) proof fn lemma_polygons_fit(st: RingState, polys: Seq<Seq<Seq<Coord32>>>)
    requires
        st.1.len() > 0,
        st.2.len() > 0,
        st.1.last() + polygon_coord_total(polys) <= u32::MAX,
        st.2.last() + ring_total(polys) <= u32::MAX,
    ensures
        polygons_state_ok(st, polys),
        polygons_state(st, polys).1.len() > 0,
        polygons_state(st, polys).2.len() > 0,
        polygons_state(st, polys).1.last() == st.1.last() + polygon_coord_total(polys),
        polygons_state(st, polys).2.last() == st.2.last() + ring_total(polys),
    decreases polys.len(),
{
    if polys.len() > 0 {
        let init = polys.drop_last();
        let sr = stripped_rings(polys.last());
        lemma_polys_totals(init);
        lemma_polys_totals(polys);
        lemma_stripped_total(polys.last());
        lemma_coord_total_nonneg(sr);
        lemma_polygons_fit(st, init);
        let s1 = polygons_state(st, init);
        lemma_lines_fit(s1.1, sr);
    }
}

proof fn lemma_bump_within(o: Option<Seq<u32>>, d: int, s: int)
    requires
        array_within(o, s),
        d >= 0,
        s + d <= u32::MAX,
    ensures
        crate::model::bump_ok(o, d),
        array_within(bump(o, d), s + d),
{
}

proof fn lemma_bump_each_within(o: Option<Seq<u32>>, n: int, s: int)
    requires
        array_within(o, s),
        n >= 0,
        s >= 0,
        s + n <= u32::MAX,
    ensures
        crate::model::bump_each_ok(o, n),
        array_within(bump_each(o, n), s + n),
{
    if let Some(a) = o {
        let b = bump_each(o, n).unwrap();
        if n > 0 {
            assert(b.last() == (a.last() + n) as u32);
        } else {
            assert(b =~= a);
        }
    }
}

/// Appending polygons to an untessellated collection within `s` never
/// faults when `s` plus the polygons' size and the geometry offset step fit.
proof fn lemma_polygons_within(
    m: GeometryModel,
    t: crate::geometry_type::GeometryType,
    polys: Seq<Seq<Seq<Coord32>>>,
    geom_d: int,
    s: int,
)
    requires
        offsets_within(m, s),
        s >= 0,
        0 <= geom_d,
        t == crate::geometry_type::GeometryType::Polygon ==> polys.len() == 1,
        geom_d == if t == crate::geometry_type::GeometryType::Polygon {
            1
        } else {
            polys.len() as int
        },
        s + geom_d + polys_size(polys) <= u32::MAX,
    ensures
        crate::model::push_polygons_spec(m, t, polys, Seq::empty()) is Some,
        offsets_within(
            crate::model::push_polygons_spec(m, t, polys, Seq::empty()).unwrap(),
            s + geom_d + polys_size(polys),
        ),
{
    let m1 = init_polygon_offsets_spec(m);
    let st: RingState = (
        or_empty(m1.vertices),
        or_empty(m1.ring_offsets),
        or_empty(m1.part_offsets),
    );
    lemma_polys_totals(polys);
    assert(st.1.len() > 0 && st.1.last() <= s);
    assert(st.2.len() > 0 && st.2.last() <= s);
    lemma_polygons_fit(st, polys);
    lemma_bump_within(m1.geometry_offsets, geom_d, s);
    assert(polys.len() <= u32::MAX);
    let r = polygons_state(st, polys);
    let mid = GeometryModel {
        vector_types: m1.vector_types.push(t),
        vertices: Some(r.0),
        ring_offsets: Some(r.1),
        part_offsets: Some(r.2),
        geometry_offsets: bump(m1.geometry_offsets, geom_d),
        ..m1
    };
    assert(crate::model::tess_apply(mid, Seq::empty()) == Some(mid));
}

/// Appending one geometry to an untessellated collection within `s` never
/// faults while `s` plus its size fits in `u32`, and keeps it within that sum.
pub proof fn lemma_push_geom_within(m: GeometryModel, g: Geom32, s: int)
    requires
        offsets_within(m, s),
        s >= 0,
        s + geom_size(g) <= u32::MAX,
    ensures
        push_geom_spec(m, g, Seq::empty()) is Some,
        offsets_within(push_geom_spec(m, g, Seq::empty()).unwrap(), s + geom_size(g)),
    decreases g,
{
    let s2 = s + geom_size(g);
    match g {
        Geom32::Point(_) => {
            lemma_bump_within(m.geometry_offsets, 1, s);
            lemma_bump_within(m.part_offsets, 1, s);
            lemma_bump_within(m.ring_offsets, 1, s);
        },
        Geom32::Line(l) => {
            let lines = seq![seq![l.start, l.end]];
            assert(lines.drop_last() =~= Seq::<Seq<Coord32>>::empty());
            assert(coord_total(lines.drop_last()) == 0);
            assert(lines.last().len() == 2);
            assert(coord_total(lines) == 2);
            lemma_lines_within(m, crate::geometry_type::GeometryType::LineString, lines, s, s2);
        },
        Geom32::LineString(ls) => {
            let lines = seq![ls.0@];
            assert(lines.drop_last() =~= Seq::<Seq<Coord32>>::empty());
            assert(coord_total(lines.drop_last()) == 0);
            assert(coord_total(lines) == ls.0@.len());
            lemma_lines_within(m, crate::geometry_type::GeometryType::LineString, lines, s, s2);
        },
        Geom32::MultiLineString(ls) => {
            lemma_coord_total_nonneg(lines_coords(ls@));
            lemma_lines_within(
                m,
                crate::geometry_type::GeometryType::MultiLineString,
                lines_coords(ls@),
                s,
                s2,
            );
        },
        Geom32::MultiPoint(pts) => {
            let c = pts@.len() as int;
            lemma_bump_within(m.geometry_offsets, c, s);
            lemma_bump_each_within(m.part_offsets, c, s);
            lemma_bump_each_within(m.ring_offsets, c, s);
        },
        Geom32::Polygon(p) => {
            let polys = seq![polygon_rings(p)];
            assert(polys.drop_last() =~= Seq::<Seq<Seq<Coord32>>>::empty());
            assert(polys_size(polys.drop_last()) == 0);
            assert(polys_size(polys) == rings_size(polygon_rings(p)));
            lemma_coord_total_nonneg(polygon_rings(p));
            lemma_polygons_within(m, crate::geometry_type::GeometryType::Polygon, polys, 1, s);
        },
        Geom32::MultiPolygon(ps) => {
            lemma_polys_size_nonneg(polygons_rings(ps@));
            lemma_polygons_within(
                m,
                crate::geometry_type::GeometryType::MultiPolygon,
                polygons_rings(ps@),
                ps@.len() as int,
                s,
            );
        },
        Geom32::Rect(r) => {
            let polys = seq![seq![r.spec_ring()]];
            assert(polys.drop_last() =~= Seq::<Seq<Seq<Coord32>>>::empty());
            assert(polys_size(polys.drop_last()) == 0);
            assert(polys_size(polys) == rings_size(seq![r.spec_ring()]));
            lemma_coord_total_nonneg(seq![r.spec_ring()]);
            lemma_polygons_within(m, crate::geometry_type::GeometryType::Polygon, polys, 1, s);
        },
        Geom32::Triangle(t) => {
            let polys = seq![seq![t.spec_ring()]];
            assert(polys.drop_last() =~= Seq::<Seq<Seq<Coord32>>>::empty());
            assert(polys_size(polys.drop_last()) == 0);
            assert(polys_size(polys) == rings_size(seq![t.spec_ring()]));
            lemma_coord_total_nonneg(seq![t.spec_ring()]);
            lemma_polygons_within(m, crate::geometry_type::GeometryType::Polygon, polys, 1, s);
        },
        Geom32::GeometryCollection(gs) => {
            lemma_push_all_within(m, gs@, s);
        },
    }
}

/// Appending lines of one feature to an untessellated collection within
/// `s` never faults while `s` plus their size (and one) fits.
proof fn lemma_lines_within(
    m: GeometryModel,
    t: crate::geometry_type::GeometryType,
    lines: Seq<Seq<Coord32>>,
    s: int,
    s2: int,
)
    requires
        offsets_within(m, s),
        s >= 0,
        t == crate::geometry_type::GeometryType::LineString ==> lines.len() == 1,
        s2 == s + 1 + rings_size(lines),
        s2 <= u32::MAX,
    ensures
        crate::model::push_lines_spec(m, t, lines) is Some,
        offsets_within(crate::model::push_lines_spec(m, t, lines).unwrap(), s2),
{
    lemma_coord_total_nonneg(lines);
    let has_ring = m.ring_offsets is Some;
    let target = if has_ring {
        init_offsets_spec(or_empty(m.ring_offsets))
    } else {
        init_offsets_spec(or_empty(m.part_offsets))
    };
    assert(target.len() > 0 && target.last() <= s);
    lemma_lines_fit(target, lines);
    let c = lines.len() as int;
    let geom_d: int = if t == crate::geometry_type::GeometryType::LineString {
        1
    } else {
        c
    };
    lemma_bump_within(m.geometry_offsets, geom_d, s);
    if has_ring {
        if t == crate::geometry_type::GeometryType::LineString {
            lemma_bump_within(m.part_offsets, 1, s);
        } else {
            lemma_bump_each_within(m.part_offsets, c, s);
        }
    }
}

/// Appending geometries to an untessellated collection within `s` never
/// faults while `s` plus their total size fits in `u32`.
pub proof fn lemma_push_all_within(m: GeometryModel, gs: Seq<Geom32>, s: int)
    requires
        offsets_within(m, s),
        s >= 0,
        s + geoms_size(gs) <= u32::MAX,
    ensures
        push_all_spec(m, gs, Seq::empty()) is Some,
        offsets_within(push_all_spec(m, gs, Seq::empty()).unwrap(), s + geoms_size(gs)),
    decreases gs,
{
    if gs.len() > 0 {
        let init = gs.subrange(0, gs.len() - 1);
        let e = Seq::<crate::model::EarcutRaw>::empty();
        assert(e.take(0) =~= e);
        assert(e.skip(0) =~= e);
        lemma_geoms_size_nonneg(init);
        lemma_geom_size_nonneg(gs[gs.len() - 1]);
        lemma_push_all_within(m, init, s);
        let m1 = push_all_spec(m, init, e).unwrap();
        lemma_push_geom_within(m1, gs[gs.len() - 1], s + geoms_size(init));
    }
}

/// Building a geometry column without tessellation never faults when the
/// total size of the geometries fits in `u32`.
pub proof fn lemma_from_geoms_fits(gs: Seq<Geom32>)
    requires
        geoms_size(gs) <= u32::MAX,
    ensures
        from_geoms_spec(gs, false, Seq::empty()) is Some,
{
    lemma_geoms_size_nonneg(gs);
    lemma_push_all_within(initial_model(gs, false), gs, 0);
}

/// The cap at which sizes stop being counted: one more than `u32::MAX`.
pub const SIZE_CAP: u64 = 4294967296;

/// `x`, or the cap when larger.
pub open spec fn capped(x: int) -> int {
    if x > SIZE_CAP {
        SIZE_CAP as int
    } else {
        x
    }
}

/// The capped sum of two capped sizes.
pub(crate) fn cap_add(a: u64, b: u64) -> (r: u64)
    requires
        a <= SIZE_CAP,
        b <= SIZE_CAP,
    ensures
        r == capped(a + b),
{
    if a + b > SIZE_CAP {
        SIZE_CAP
    } else {
        a + b
    }
}

/// A count, capped.
pub(crate) fn cap_len(n: usize) -> (r: u64)
    ensures
        r == capped(n as int),
{
    if n as u64 > SIZE_CAP {
        SIZE_CAP
    } else {
        n as u64
    }
}

pub(crate) proof fn lemma_capped_add(a: int, b: int)
    requires
        a >= 0,
        b >= 0,
    ensures
        capped(capped(a) + b) == capped(a + b),
        capped(a + capped(b)) == capped(a + b),
{
}

pub(crate) proof fn lemma_coord_total_concat(a: Seq<Seq<Coord32>>, b: Seq<Seq<Coord32>>)
    ensures
        coord_total(a + b) == coord_total(a) + coord_total(b),
    decreases b.len(),
{
    if b.len() == 0 {
        assert(a + b =~= a);
    } else {
        assert((a + b).drop_last() =~= a + b.drop_last());
        lemma_coord_total_concat(a, b.drop_last());
    }
}

} // verus!
