//! Exactly when building a geometry column without tessellation faults: the
//! faults depend only on the last entries of the offset arrays, which are
//! followed here without building anything.
use vstd::prelude::*;

use crate::capacity::{
    cap_add, cap_len, capped, lemma_capped_add, lemma_coord_total_concat,
    lemma_coord_total_nonneg, lemma_lines_fit, lemma_polys_totals, lemma_stripped_total, SIZE_CAP,
};
use crate::dense::{coord_total, polygon_coord_total, ring_total};
use crate::geom::{Coord32, Geom32, LineString32, Polygon32};
use crate::geometry_type::GeometryType;
use crate::model::{
    any_line_or_poly, any_multi, any_polygonal, bump, bump_each, from_geoms_spec,
    init_offsets_spec, init_polygon_offsets_spec, initial_model, lemma_any_step, lines_coords,
    lines_offsets, lines_offsets_ok, or_empty, polygon_rings, polygons_rings, polygons_state,
    polygons_state_ok, push_all_spec, push_geom_spec, push_lines_spec, push_multi_point_spec,
    push_point_spec, push_polygons_spec, stripped_rings, strip_closing, EarcutRaw,
    GeometryModel, RingState,
};

verus! {

/// The last entries of the geometry, part and ring offset arrays, for the
/// arrays that are present.
pub type Tops = (Option<int>, Option<int>, Option<int>);

/// The last entry of a present array.
pub open spec fn last_of(o: Option<Seq<u32>>) -> Option<int> {
    match o {
        Some(s) => Some(s.last() as int),
        None => None,
    }
}

/// The last entries of a collection's offset arrays.
pub open spec fn tops_of(m: GeometryModel) -> Tops {
    (last_of(m.geometry_offsets), last_of(m.part_offsets), last_of(m.ring_offsets))
}

/// An untessellated collection whose present offset arrays are non-empty.
pub open spec fn arrays_nonempty(m: GeometryModel) -> bool {
    &&& m.triangles is None
    &&& m.geometry_offsets matches Some(s) ==> s.len() > 0
    &&& m.part_offsets matches Some(s) ==> s.len() > 0
    &&& m.ring_offsets matches Some(s) ==> s.len() > 0
}

/// A present last entry raised by `d`, or a fault when that exceeds `u32`.
pub open spec fn raise(o: Option<int>, d: int) -> Option<Option<int>> {
    match o {
        Some(x) => if x + d <= u32::MAX {
            Some(Some(x + d))
        } else {
            None
        },
        None => Some(None),
    }
}

/// Appending lines of `ct` coordinates in all, `count` of them, one feature
/// (`single`) or one per line.
pub open spec fn tops_lines(t: Tops, single: bool, ct: int, count: int) -> Option<Tops> {
    let has_ring = t.2 is Some;
    let target: int = if has_ring {
        t.2.unwrap()
    } else {
        match t.1 {
            Some(x) => x,
            None => 0,
        }
    };
    let d: int = if single {
        1
    } else {
        count
    };
    if target + ct <= u32::MAX && count <= u32::MAX {
        match raise(t.0, d) {
            Some(g2) => if has_ring {
                match raise(t.1, d) {
                    Some(p2) => Some((g2, p2, Some(target + ct))),
                    None => None,
                }
            } else {
                Some((g2, Some(target + ct), t.2))
            },
            None => None,
        }
    } else {
        None
    }
}

/// Appending polygons with `pct` kept coordinates and `rt` rings in all,
/// `count` of them, raising the geometry offsets by `d`.
pub open spec fn tops_polygons(t: Tops, pct: int, rt: int, count: int, d: int) -> Option<Tops> {
    let (r1, p1) = if t.2 is None && t.1 is Some {
        (t.1, None::<int>)
    } else {
        (t.2, t.1)
    };
    let rl: int = match r1 {
        Some(x) => x,
        None => 0,
    };
    let pl: int = match p1 {
        Some(x) => x,
        None => 0,
    };
    if rl + pct <= u32::MAX && pl + rt <= u32::MAX && count <= u32::MAX {
        match raise(t.0, d) {
            Some(g2) => Some((g2, Some(pl + rt), Some(rl + pct))),
            None => None,
        }
    } else {
        None
    }
}

/// Appending one geometry, or a fault.
pub open spec fn tops_geom(t: Tops, g: Geom32) -> Option<Tops>
    decreases g,
{
    match g {
        Geom32::Point(_) => match (raise(t.0, 1), raise(t.1, 1), raise(t.2, 1)) {
            (Some(a), Some(b), Some(c)) => Some((a, b, c)),
            _ => None,
        },
        Geom32::Line(_) => tops_lines(t, true, 2, 1),
        Geom32::LineString(ls) => tops_lines(t, true, ls.0@.len() as int, 1),
        Geom32::MultiLineString(ls) => tops_lines(
            t,
            false,
            coord_total(lines_coords(ls@)),
            ls@.len() as int,
        ),
        Geom32::MultiPoint(pts) => {
            let c = pts@.len() as int;
            if c <= u32::MAX {
                match (raise(t.0, c), raise(t.1, c), raise(t.2, c)) {
                    (Some(a), Some(b), Some(c2)) => Some((a, b, c2)),
                    _ => None,
                }
            } else {
                None
            }
        },
        Geom32::Polygon(p) => tops_polygons(
            t,
            polygon_coord_total(seq![polygon_rings(p)]),
            ring_total(seq![polygon_rings(p)]),
            1,
            1,
        ),
        Geom32::MultiPolygon(ps) => tops_polygons(
            t,
            polygon_coord_total(polygons_rings(ps@)),
            ring_total(polygons_rings(ps@)),
            ps@.len() as int,
            ps@.len() as int,
        ),
        Geom32::Rect(r) => tops_polygons(t, 4, 1, 1, 1),
        Geom32::Triangle(tr) => tops_polygons(t, 3, 1, 1, 1),
        Geom32::GeometryCollection(gs) => tops_all(t, gs@),
    }
}

/// Appending geometries in turn, or a fault.
pub open spec fn tops_all(t: Tops, gs: Seq<Geom32>) -> Option<Tops>
    decreases gs,
{
    if gs.len() == 0 {
        Some(t)
    } else {
        match tops_all(t, gs.subrange(0, gs.len() - 1)) {
            Some(t1) => tops_geom(t1, gs[gs.len() - 1]),
            None => None,
        }
    }
}

/// Appending lines faults exactly when the last offset plus their
/// coordinates exceeds `u32`.
proof fn lemma_lines_exact(o: Seq<u32>, lines: Seq<Seq<Coord32>>)
    requires
        o.len() > 0,
    ensures
        lines_offsets_ok(o, lines) == (o.last() + coord_total(lines) <= u32::MAX),
        lines_offsets(o, lines).len() > 0,
    decreases lines.len(),
{
    lemma_coord_total_nonneg(lines);
    if lines.len() > 0 {
        lemma_lines_exact(o, lines.drop_last());
        lemma_coord_total_nonneg(lines.drop_last());
        if lines_offsets_ok(o, lines.drop_last()) {
            lemma_lines_fit(o, lines.drop_last());
        }
    }
}

/// Appending polygons faults exactly when the ring or part offsets would
/// exceed `u32`.
proof fn lemma_polygons_exact(st: RingState, polys: Seq<Seq<Seq<Coord32>>>)
    requires
        st.1.len() > 0,
        st.2.len() > 0,
    ensures
        polygons_state_ok(st, polys) == (st.1.last() + polygon_coord_total(polys) <= u32::MAX
            && st.2.last() + ring_total(polys) <= u32::MAX),
        polygons_state(st, polys).1.len() > 0,
        polygons_state(st, polys).2.len() > 0,
        polygons_state_ok(st, polys) ==> polygons_state(st, polys).1.last() == st.1.last()
            + polygon_coord_total(polys) && polygons_state(st, polys).2.last() == st.2.last()
            + ring_total(polys),
    decreases polys.len(),
{
    lemma_polys_totals(polys);
    if polys.len() > 0 {
        let init = polys.drop_last();
        let sr = stripped_rings(polys.last());
        lemma_polys_totals(init);
        lemma_stripped_total(polys.last());
        lemma_coord_total_nonneg(sr);
        lemma_polygons_exact(st, init);
        let s1 = polygons_state(st, init);
        lemma_lines_exact(s1.1, sr);
        if polygons_state_ok(st, init) && s1.1.last() + coord_total(sr) <= u32::MAX {
            lemma_lines_fit(s1.1, sr);
        }
    }
}

proof fn lemma_raise_bump(o: Option<Seq<u32>>, d: int)
    requires
        o matches Some(s) ==> s.len() > 0,
        d >= 0,
    ensures
        crate::model::bump_ok(o, d) == (raise(last_of(o), d) is Some),
        raise(last_of(o), d) matches Some(x) ==> last_of(bump(o, d)) == x,
        bump(o, d) matches Some(s) ==> s.len() > 0,
{
}

proof fn lemma_raise_bump_each(o: Option<Seq<u32>>, n: int)
    requires
        o matches Some(s) ==> s.len() > 0,
        n >= 0,
    ensures
        crate::model::bump_each_ok(o, n) == (raise(last_of(o), n) is Some),
        raise(last_of(o), n) matches Some(x) ==> last_of(bump_each(o, n)) == x,
        bump_each(o, n) matches Some(s) ==> s.len() > 0,
{
    if let Some(a) = o {
        let b = bump_each(o, n).unwrap();
        if n > 0 {
            assert(b.last() == (a.last() + n) as u32);
        } else {
            assert(b =~= a);
        }
    }
}

proof fn lemma_lines_tops(m: GeometryModel, t: GeometryType, lines: Seq<Seq<Coord32>>)
    requires
        arrays_nonempty(m),
        t == GeometryType::LineString ==> lines.len() == 1,
        t == GeometryType::LineString || t == GeometryType::MultiLineString,
    ensures
        (push_lines_spec(m, t, lines) is Some) == (tops_lines(
            tops_of(m),
            t == GeometryType::LineString,
            coord_total(lines),
            lines.len() as int,
        ) is Some),
        push_lines_spec(m, t, lines) matches Some(m2) ==> arrays_nonempty(m2) && tops_of(m2)
            == tops_lines(
            tops_of(m),
            t == GeometryType::LineString,
            coord_total(lines),
            lines.len() as int,
        ).unwrap(),
{
    lemma_coord_total_nonneg(lines);
    let has_ring = m.ring_offsets is Some;
    let target = if has_ring {
        init_offsets_spec(or_empty(m.ring_offsets))
    } else {
        init_offsets_spec(or_empty(m.part_offsets))
    };
    lemma_lines_exact(target, lines);
    if lines_offsets_ok(target, lines) {
        lemma_lines_fit(target, lines);
    }
    let single = t == GeometryType::LineString;
    let c = lines.len() as int;
    let d: int = if single {
        1
    } else {
        c
    };
    lemma_raise_bump(m.geometry_offsets, d);
    lemma_raise_bump(m.part_offsets, 1);
    lemma_raise_bump_each(m.part_offsets, c);
}

#[verifier::rlimit(30)]
proof fn lemma_polygons_tops(
    m: GeometryModel,
    t: GeometryType,
    polys: Seq<Seq<Seq<Coord32>>>,
    d: int,
)
    requires
        arrays_nonempty(m),
        d >= 0,
        t == GeometryType::Polygon ==> polys.len() == 1 && d == 1,
        t == GeometryType::MultiPolygon ==> d == polys.len(),
        t == GeometryType::Polygon || t == GeometryType::MultiPolygon,
    ensures
        (push_polygons_spec(m, t, polys, Seq::empty()) is Some) == (tops_polygons(
            tops_of(m),
            polygon_coord_total(polys),
            ring_total(polys),
            polys.len() as int,
            d,
        ) is Some),
        push_polygons_spec(m, t, polys, Seq::empty()) matches Some(m2) ==> arrays_nonempty(m2)
            && tops_of(m2) == tops_polygons(
            tops_of(m),
            polygon_coord_total(polys),
            ring_total(polys),
            polys.len() as int,
            d,
        ).unwrap(),
{
    let m1 = init_polygon_offsets_spec(m);
    let st: RingState = (
        or_empty(m1.vertices),
        or_empty(m1.ring_offsets),
        or_empty(m1.part_offsets),
    );
    lemma_polys_totals(polys);
    lemma_polygons_exact(st, polys);
    lemma_raise_bump(m1.geometry_offsets, d);
    let r = polygons_state(st, polys);
    let mid = GeometryModel {
        vector_types: m1.vector_types.push(t),
        vertices: Some(r.0),
        ring_offsets: Some(r.1),
        part_offsets: Some(r.2),
        geometry_offsets: bump(m1.geometry_offsets, d),
        ..m1
    };
    assert(crate::model::tess_apply(mid, Seq::empty()) == Some(mid));
}

/// Appending a geometry faults exactly when [`tops_geom`] does, and moves
/// the last offsets as it says.
pub proof fn lemma_push_geom_tops(m: GeometryModel, g: Geom32)
    requires
        arrays_nonempty(m),
    ensures
        (push_geom_spec(m, g, Seq::empty()) is Some) == (tops_geom(tops_of(m), g) is Some),
        push_geom_spec(m, g, Seq::empty()) matches Some(m2) ==> arrays_nonempty(m2) && tops_of(m2)
            == tops_geom(tops_of(m), g).unwrap(),
    decreases g,
{
    match g {
        Geom32::Point(_) => {
            lemma_raise_bump(m.geometry_offsets, 1);
            lemma_raise_bump(m.part_offsets, 1);
            lemma_raise_bump(m.ring_offsets, 1);
        },
        Geom32::Line(l) => {
            let lines = seq![seq![l.start, l.end]];
            assert(lines.drop_last() =~= Seq::<Seq<Coord32>>::empty());
            assert(coord_total(lines.drop_last()) == 0);
            assert(coord_total(lines) == 2);
            lemma_lines_tops(m, GeometryType::LineString, lines);
        },
        Geom32::LineString(ls) => {
            let lines = seq![ls.0@];
            assert(lines.drop_last() =~= Seq::<Seq<Coord32>>::empty());
            assert(coord_total(lines.drop_last()) == 0);
            assert(coord_total(lines) == ls.0@.len());
            lemma_lines_tops(m, GeometryType::LineString, lines);
        },
        Geom32::MultiLineString(ls) => {
            lemma_lines_tops(m, GeometryType::MultiLineString, lines_coords(ls@));
        },
        Geom32::MultiPoint(pts) => {
            let c = pts@.len() as int;
            lemma_raise_bump(m.geometry_offsets, c);
            lemma_raise_bump_each(m.part_offsets, c);
            lemma_raise_bump_each(m.ring_offsets, c);
        },
        Geom32::Polygon(p) => {
            lemma_polygons_tops(m, GeometryType::Polygon, seq![polygon_rings(p)], 1);
        },
        Geom32::MultiPolygon(ps) => {
            lemma_polygons_tops(
                m,
                GeometryType::MultiPolygon,
                polygons_rings(ps@),
                ps@.len() as int,
            );
        },
        Geom32::Rect(r) => {
            let polys = seq![seq![r.spec_ring()]];
            lemma_ring_totals(polys, 5);
            lemma_polygons_tops(m, GeometryType::Polygon, polys, 1);
        },
        Geom32::Triangle(tr) => {
            let polys = seq![seq![tr.spec_ring()]];
            lemma_ring_totals(polys, 4);
            lemma_polygons_tops(m, GeometryType::Polygon, polys, 1);
        },
        Geom32::GeometryCollection(gs) => {
            lemma_push_all_tops(m, gs@);
        },
    }
}

/// One polygon with one closed ring of `n` coordinates keeps `n - 1` of them.
proof fn lemma_ring_totals(polys: Seq<Seq<Seq<Coord32>>>, n: int)
    requires
        polys.len() == 1,
        polys[0].len() == 1,
        polys[0][0].len() == n,
        n > 1,
        polys[0][0][n - 1] == polys[0][0][0],
    ensures
        polygon_coord_total(polys) == n - 1,
        ring_total(polys) == 1,
{
    assert(polys.drop_last() =~= Seq::<Seq<Seq<Coord32>>>::empty());
    let sr = stripped_rings(polys.last());
    assert(sr.len() == 1);
    assert(sr[0] == strip_closing(polys[0][0]));
    assert(sr.drop_last() =~= Seq::<Seq<Coord32>>::empty());
    assert(coord_total(sr.drop_last()) == 0);
    assert(polygon_coord_total(polys.drop_last()) == 0);
    assert(ring_total(polys.drop_last()) == 0);
}

/// Appending geometries faults exactly when [`tops_all`] does.
pub proof fn lemma_push_all_tops(m: GeometryModel, gs: Seq<Geom32>)
    requires
        arrays_nonempty(m),
    ensures
        (push_all_spec(m, gs, Seq::empty()) is Some) == (tops_all(tops_of(m), gs) is Some),
        push_all_spec(m, gs, Seq::empty()) matches Some(m2) ==> arrays_nonempty(m2) && tops_of(m2)
            == tops_all(tops_of(m), gs).unwrap(),
    decreases gs,
{
    if gs.len() > 0 {
        let init = gs.subrange(0, gs.len() - 1);
        let e = Seq::<EarcutRaw>::empty();
        assert(e.take(0) =~= e);
        assert(e.skip(0) =~= e);
        lemma_push_all_tops(m, init);
        if let Some(m1) = push_all_spec(m, init, e) {
            lemma_push_geom_tops(m1, gs[gs.len() - 1]);
        }
    }
}

/// A fault of a prefix is a fault of the whole.
proof fn lemma_tops_prefix(t: Tops, gs: Seq<Geom32>, i: int)
    requires
        0 <= i <= gs.len(),
        tops_all(t, gs.take(i)) is None,
    ensures
        tops_all(t, gs) is None,
    decreases gs.len() - i,
{
    if i == gs.len() {
        assert(gs.take(i) =~= gs);
    } else {
        assert(gs.take(i + 1).subrange(0, i) =~= gs.take(i));
        lemma_tops_prefix(t, gs, i + 1);
    }
}

/// The last entries as exact numbers.
pub open spec fn tops_view(t: (Option<u64>, Option<u64>, Option<u64>)) -> Tops {
    (
        match t.0 {
            Some(x) => Some(x as int),
            None => None,
        },
        match t.1 {
            Some(x) => Some(x as int),
            None => None,
        },
        match t.2 {
            Some(x) => Some(x as int),
            None => None,
        },
    )
}

/// Every last entry fits in `u32`.
pub open spec fn tops_fit(t: (Option<u64>, Option<u64>, Option<u64>)) -> bool {
    &&& t.0 matches Some(x) ==> x <= u32::MAX
    &&& t.1 matches Some(x) ==> x <= u32::MAX
    &&& t.2 matches Some(x) ==> x <= u32::MAX
}

fn raise_exec(o: Option<u64>, d: u64) -> (r: Option<Option<u64>>)
    requires
        o matches Some(x) ==> x <= u32::MAX,
        d <= SIZE_CAP,
    ensures
        match raise(
            match o {
                Some(x) => Some(x as int),
                None => None,
            },
            d as int,
        ) {
            Some(Some(y)) => r matches Some(Some(z)) && z == y && z <= u32::MAX,
            Some(None) => r == Some(None::<u64>),
            None => r is None,
        },
{
    match o {
        Some(x) => if x + d <= 4294967295 {
            Some(Some(x + d))
        } else {
            None
        },
        None => Some(None),
    }
}

/// The capped coordinate total of some line strings.
fn lines_total(ls: &[LineString32]) -> (r: u64)
    ensures
        r == capped(coord_total(lines_coords(ls@))),
{
    let n = ls.len();
    let mut acc: u64 = 0;
    let mut i: usize = 0;
    assert(lines_coords(ls@).take(0) =~= Seq::<Seq<Coord32>>::empty());
    while i < n
        invariant
            i <= n,
            n == ls@.len(),
            acc <= SIZE_CAP,
            acc == capped(coord_total(lines_coords(ls@).take(i as int))),
        decreases n - i,
    {
        let ghost lines = lines_coords(ls@);
        proof {
            assert(lines.take(i + 1).drop_last() =~= lines.take(i as int));
            lemma_coord_total_nonneg(lines.take(i as int));
            lemma_capped_add(coord_total(lines.take(i as int)), ls@[i as int].0@.len() as int);
        }
        acc = cap_add(acc, cap_len(ls[i].0.len()));
        i = i + 1;
    }
    assert(lines_coords(ls@).take(n as int) =~= lines_coords(ls@));
    acc
}

/// The number of coordinates a ring keeps once its closing one is dropped.
fn kept_len(ring: &LineString32) -> (n: usize)
    ensures
        n == strip_closing(ring.0@).len(),
{
    let n = ring.0.len();
    if n > 1 && ring.0[n - 1] == ring.0[0] {
        n - 1
    } else {
        n
    }
}

/// The capped kept-coordinate total and the ring count of a polygon.
fn polygon_totals(p: &Polygon32) -> (r: (u64, u64))
    ensures
        r.0 == capped(coord_total(stripped_rings(polygon_rings(*p)))),
        r.1 == capped(polygon_rings(*p).len() as int),
{
    let ghost rings = polygon_rings(*p);
    let ghost sr = stripped_rings(rings);
    let n = p.interiors.len();
    let mut acc: u64 = cap_len(kept_len(&p.exterior));
    proof {
        assert(sr.take(1).drop_last() =~= Seq::<Seq<Coord32>>::empty());
        assert(coord_total(sr.take(1).drop_last()) == 0);
        assert(sr[0] == strip_closing(p.exterior.0@));
    }
    let mut i: usize = 0;
    while i < n
        invariant
            i <= n,
            n == p.interiors@.len(),
            rings == polygon_rings(*p),
            sr == stripped_rings(rings),
            sr.len() == n + 1,
            acc <= SIZE_CAP,
            acc == capped(coord_total(sr.take(i + 1))),
        decreases n - i,
    {
        proof {
            assert(sr.take(i + 2).drop_last() =~= sr.take(i + 1));
            assert(sr[i + 1] == strip_closing(p.interiors@[i as int].0@));
            lemma_coord_total_nonneg(sr.take(i + 1));
            lemma_capped_add(coord_total(sr.take(i + 1)), sr[i + 1].len() as int);
        }
        acc = cap_add(acc, cap_len(kept_len(&p.interiors[i])));
        i = i + 1;
    }
    assert(sr.take(n + 1) =~= sr);
    (acc, cap_add(cap_len(n), 1))
}

/// The capped kept-coordinate and ring totals of some polygons.
fn polygons_totals(ps: &[Polygon32]) -> (r: (u64, u64))
    ensures
        r.0 == capped(polygon_coord_total(polygons_rings(ps@))),
        r.1 == capped(ring_total(polygons_rings(ps@))),
{
    let n = ps.len();
    let mut a: u64 = 0;
    let mut b: u64 = 0;
    let mut i: usize = 0;
    while i < n
        invariant
            i <= n,
            n == ps@.len(),
            a <= SIZE_CAP,
            b <= SIZE_CAP,
            a == capped(polygon_coord_total(polygons_rings(ps@).take(i as int))),
            b == capped(ring_total(polygons_rings(ps@).take(i as int))),
        decreases n - i,
    {
        let ghost polys = polygons_rings(ps@);
        proof {
            assert(polys.take(i + 1).drop_last() =~= polys.take(i as int));
            lemma_polys_totals(polys.take(i as int));
            lemma_coord_total_nonneg(stripped_rings(polys[i as int]));
            lemma_capped_add(
                polygon_coord_total(polys.take(i as int)),
                coord_total(stripped_rings(polys[i as int])),
            );
            lemma_capped_add(ring_total(polys.take(i as int)), polys[i as int].len() as int);
        }
        let (x, y) = polygon_totals(&ps[i]);
        a = cap_add(a, x);
        b = cap_add(b, y);
        i = i + 1;
    }
    assert(polygons_rings(ps@).take(n as int) =~= polygons_rings(ps@));
    (a, b)
}

fn lines_exec(t: (Option<u64>, Option<u64>, Option<u64>), single: bool, ct: u64, count: u64) -> (r:
    Option<(Option<u64>, Option<u64>, Option<u64>)>)
    requires
        tops_fit(t),
        ct <= SIZE_CAP,
        count <= SIZE_CAP,
    ensures
        match tops_lines(tops_view(t), single, ct as int, count as int) {
            Some(v) => r matches Some(x) && tops_fit(x) && tops_view(x) == v,
            None => r is None,
        },
{
    let has_ring = t.2.is_some();
    let target: u64 = match t.2 {
        Some(x) => x,
        None => match t.1 {
            Some(x) => x,
            None => 0,
        },
    };
    let d: u64 = if single {
        1
    } else {
        count
    };
    if target + ct > 4294967295 || count > 4294967295 {
        return None;
    }
    let g2 = match raise_exec(t.0, d) {
        Some(g) => g,
        None => {
            return None;
        },
    };
    if has_ring {
        match raise_exec(t.1, d) {
            Some(p2) => Some((g2, p2, Some(target + ct))),
            None => None,
        }
    } else {
        Some((g2, Some(target + ct), t.2))
    }
}

fn polygons_exec(
    t: (Option<u64>, Option<u64>, Option<u64>),
    pct: u64,
    rt: u64,
    count: u64,
    d: u64,
) -> (r: Option<(Option<u64>, Option<u64>, Option<u64>)>)
    requires
        tops_fit(t),
        pct <= SIZE_CAP,
        rt <= SIZE_CAP,
        count <= SIZE_CAP,
        d <= SIZE_CAP,
    ensures
        match tops_polygons(tops_view(t), pct as int, rt as int, count as int, d as int) {
            Some(v) => r matches Some(x) && tops_fit(x) && tops_view(x) == v,
            None => r is None,
        },
{
    let (r1, p1) = if t.2.is_none() && t.1.is_some() {
        (t.1, None)
    } else {
        (t.2, t.1)
    };
    let rl: u64 = match r1 {
        Some(x) => x,
        None => 0,
    };
    let pl: u64 = match p1 {
        Some(x) => x,
        None => 0,
    };
    if rl + pct > 4294967295 || pl + rt > 4294967295 || count > 4294967295 {
        return None;
    }
    match raise_exec(t.0, d) {
        Some(g2) => Some((g2, Some(pl + rt), Some(rl + pct))),
        None => None,
    }
}

proof fn lemma_capped_check(x: int, y: int)
    requires
        0 <= x <= u32::MAX,
        y >= 0,
    ensures
        (x + capped(y) <= u32::MAX) == (x + y <= u32::MAX),
{
}

/// Appending one geometry to the last offsets, or a fault.
fn geom_exec(t: (Option<u64>, Option<u64>, Option<u64>), g: &Geom32) -> (r: Option<
    (Option<u64>, Option<u64>, Option<u64>),
>)
    requires
        tops_fit(t),
    ensures
        match tops_geom(tops_view(t), *g) {
            Some(v) => r matches Some(x) && tops_fit(x) && tops_view(x) == v,
            None => r is None,
        },
    decreases g,
{
    match g {
        Geom32::Point(_) => {
            let a = raise_exec(t.0, 1);
            let b = raise_exec(t.1, 1);
            let c = raise_exec(t.2, 1);
            match (a, b, c) {
                (Some(a), Some(b), Some(c)) => Some((a, b, c)),
                _ => None,
            }
        },
        Geom32::Line(_) => lines_exec(t, true, 2, 1),
        Geom32::LineString(ls) => {
            let ct = cap_len(ls.0.len());
            let r = lines_exec(t, true, ct, 1);
            proof {
                assert(tops_lines(tops_view(t), true, ct as int, 1) == tops_lines(
                    tops_view(t),
                    true,
                    ls.0@.len() as int,
                    1,
                ));
            }
            r
        },
        Geom32::MultiLineString(ls) => {
            let ct = lines_total(ls.as_slice());
            let c = cap_len(ls.len());
            proof {
                lemma_coord_total_nonneg(lines_coords(ls@));
            }
            let r = lines_exec(t, false, ct, c);
            proof {
                assert(tops_lines(tops_view(t), false, ct as int, c as int) == tops_lines(
                    tops_view(t),
                    false,
                    coord_total(lines_coords(ls@)),
                    ls@.len() as int,
                ));
            }
            r
        },
        Geom32::MultiPoint(pts) => {
            let c = cap_len(pts.len());
            if c > 4294967295 {
                return None;
            }
            let a = raise_exec(t.0, c);
            let b = raise_exec(t.1, c);
            let d = raise_exec(t.2, c);
            match (a, b, d) {
                (Some(a), Some(b), Some(d)) => Some((a, b, d)),
                _ => None,
            }
        },
        Geom32::Polygon(p) => {
            let (pct, rt) = polygon_totals(p);
            proof {
                let polys = seq![polygon_rings(*p)];
                assert(polys.drop_last() =~= Seq::<Seq<Seq<Coord32>>>::empty());
                assert(polygon_coord_total(polys.drop_last()) == 0);
                assert(ring_total(polys.drop_last()) == 0);
                lemma_polys_totals(polys);
            }
            polygons_exec(t, pct, rt, 1, 1)
        },
        Geom32::MultiPolygon(ps) => {
            let (pct, rt) = polygons_totals(ps.as_slice());
            let c = cap_len(ps.len());
            proof {
                lemma_polys_totals(polygons_rings(ps@));
            }
            let r = polygons_exec(t, pct, rt, c, c);
            proof {
                if ps@.len() <= u32::MAX {
                    assert(tops_polygons(tops_view(t), pct as int, rt as int, c as int, c as int)
                        == tops_polygons(
                        tops_view(t),
                        polygon_coord_total(polygons_rings(ps@)),
                        ring_total(polygons_rings(ps@)),
                        ps@.len() as int,
                        ps@.len() as int,
                    ));
                }
            }
            r
        },
        Geom32::Rect(_) => polygons_exec(t, 4, 1, 1, 1),
        Geom32::Triangle(_) => polygons_exec(t, 3, 1, 1, 1),
        Geom32::GeometryCollection(gs) => {
            let n = gs.len();
            let mut cur = t;
            let mut i: usize = 0;
            assert(gs@.take(0) =~= Seq::<Geom32>::empty());
            while i < n
                invariant
                    i <= n,
                    n == gs@.len(),
                    *g == Geom32::GeometryCollection(*gs),
                    tops_fit(cur),
                    tops_all(tops_view(t), gs@.take(i as int)) == Some(tops_view(cur)),
                decreases n - i,
            {
                proof {
                    assert(decreases_to!(*g => (*g)->GeometryCollection_0));
                    assert(decreases_to!(*gs => gs@[i as int]));
                    assert(gs@.take(i + 1).subrange(0, i as int) =~= gs@.take(i as int));
                    assert(gs@.take(i + 1)[i as int] == gs@[i as int]);
                }
                match geom_exec(cur, &gs[i]) {
                    Some(next) => {
                        cur = next;
                    },
                    None => {
                        proof {
                            lemma_tops_prefix(tops_view(t), gs@, i + 1);
                        }
                        return None;
                    },
                }
                i = i + 1;
            }
            assert(gs@.take(n as int) =~= gs@);
            Some(cur)
        },
    }
}

/// Whether building the geometry column of `geoms` without tessellation
/// succeeds, that is, no offset would exceed `u32`; exact in both
/// directions.
pub fn geometries_stageable(geoms: &[Geom32]) -> (b: bool)
    ensures
        b == (from_geoms_spec(geoms@, false, Seq::empty()) is Some),
{
    let ghost gs = geoms@;
    let n = geoms.len();
    let mut has_multi = false;
    let mut has_line_or_poly = false;
    let mut has_polygon = false;
    let mut i: usize = 0;
    while i < n
        invariant
            0 <= i <= n,
            n == gs.len(),
            gs == geoms@,
            has_multi == any_multi(gs.take(i as int)),
            has_line_or_poly == any_line_or_poly(gs.take(i as int)),
            has_polygon == any_polygonal(gs.take(i as int)),
        decreases n - i,
    {
        let g = &geoms[i];
        match g {
            Geom32::MultiPoint(_) | Geom32::MultiLineString(_) | Geom32::MultiPolygon(_) => {
                has_multi = true;
                has_line_or_poly = true;
                if matches!(g, Geom32::MultiPolygon(_)) {
                    has_polygon = true;
                }
            },
            Geom32::LineString(_) | Geom32::Line(_) => {
                has_line_or_poly = true;
            },
            Geom32::Polygon(_) | Geom32::Triangle(_) | Geom32::Rect(_) => {
                has_line_or_poly = true;
                has_polygon = true;
            },
            _ => {},
        }
        proof {
            lemma_any_step(gs, i as int);
        }
        i = i + 1;
    }
    assert(gs.take(n as int) =~= gs);
    let t0: (Option<u64>, Option<u64>, Option<u64>) = (
        if has_multi {
            Some(0)
        } else {
            None
        },
        if has_line_or_poly {
            Some(0)
        } else {
            None
        },
        if has_polygon {
            Some(0)
        } else {
            None
        },
    );
    let ghost m0 = initial_model(gs, false);
    proof {
        lemma_push_all_tops(m0, gs);
        assert(tops_of(m0) == tops_view(t0));
    }
    let mut cur = t0;
    let mut k: usize = 0;
    assert(gs.take(0) =~= Seq::<Geom32>::empty());
    while k < n
        invariant
            k <= n,
            n == gs.len(),
            gs == geoms@,
            tops_fit(cur),
            tops_all(tops_view(t0), gs.take(k as int)) == Some(tops_view(cur)),
            (from_geoms_spec(gs, false, Seq::empty()) is Some) == (tops_all(tops_view(t0), gs) is Some),
        decreases n - k,
    {
        proof {
            assert(gs.take(k + 1).subrange(0, k as int) =~= gs.take(k as int));
            assert(gs.take(k + 1)[k as int] == gs[k as int]);
        }
        match geom_exec(cur, &geoms[k]) {
            Some(next) => {
                cur = next;
            },
            None => {
                proof {
                    lemma_tops_prefix(tops_view(t0), gs, k + 1);
                }
                return false;
            },
        }
        k = k + 1;
    }
    assert(gs.take(n as int) =~= gs);
    true
}

} // verus!
