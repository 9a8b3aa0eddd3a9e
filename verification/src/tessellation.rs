//! Laws of tessellation: tessellating a collection after it was built gives
//! what building it with tessellation on gives, and tessellating twice is
//! tessellating once.
use vstd::prelude::*;

use crate::geom::Geom32;
use crate::model::{
    compute_tessellation_spec, from_geoms_spec, initial_model, polygon_count_all, push_all_spec,
    push_geom_spec, tess_apply, tessellate_all, EarcutRaw, GeometryModel,
};

verus! {

/// The triangulations of the polygon features of `gs`, one list per
/// feature in order, cut out of `ecs` (the triangulations of all polygons of
/// `gs`, in order) as appending `gs` with tessellation on consumes them.
/// Members of geometry collections count as features of their own.
pub open spec fn polygon_groups(gs: Seq<Geom32>, ecs: Seq<EarcutRaw>) -> Seq<Seq<EarcutRaw>>
    decreases gs,
{
    if gs.len() == 0 {
        Seq::empty()
    } else {
        let init = gs.subrange(0, gs.len() - 1);
        let k = polygon_count_all(init) as int;
        polygon_groups(init, ecs.take(k)) + geom_groups(gs[gs.len() - 1], ecs.skip(k))
    }
}

/// The triangulation lists of the polygon features of one geometry.
pub open spec fn geom_groups(g: Geom32, ecs: Seq<EarcutRaw>) -> Seq<Seq<EarcutRaw>>
    decreases g,
{
    match g {
        Geom32::GeometryCollection(cs) => polygon_groups(cs@, ecs),
        Geom32::Polygon(_) | Geom32::MultiPolygon(_) | Geom32::Rect(_) | Geom32::Triangle(_) => seq![
            ecs,
        ],
        _ => Seq::empty(),
    }
}

/// `tess_apply` for each list of triangulations in order.
pub open spec fn tessellate_groups(m: GeometryModel, gs: Seq<Seq<EarcutRaw>>) -> Option<
    GeometryModel,
>
    decreases gs.len(),
{
    if gs.len() == 0 {
        Some(m)
    } else {
        match tessellate_groups(m, gs.drop_last()) {
            Some(m1) => tess_apply(m1, gs.last()),
            None => None,
        }
    }
}

/// The collection with the given tessellation columns.
pub open spec fn with_tess(
    m: GeometryModel,
    triangles: Option<Seq<u32>>,
    index_buffer: Option<Seq<u32>>,
) -> GeometryModel {
    GeometryModel { triangles, index_buffer, ..m }
}

/// The collection without tessellation columns.
pub open spec fn untessellated(m: GeometryModel) -> GeometryModel {
    with_tess(m, None, None)
}

/// Two collections agree on their tessellation columns.
pub open spec fn same_tess(a: GeometryModel, b: GeometryModel) -> bool {
    a.triangles == b.triangles && a.index_buffer == b.index_buffer
}

proof fn lemma_tessellate_all_groups(m: GeometryModel, vs: Seq<Vec<EarcutRaw>>)
    ensures
        tessellate_all(m, vs) == tessellate_groups(m, vs.map_values(|v: Vec<EarcutRaw>| v@)),
    decreases vs.len(),
{
    let gs = vs.map_values(|v: Vec<EarcutRaw>| v@);
    if vs.len() > 0 {
        assert(gs.drop_last() =~= vs.drop_last().map_values(|v: Vec<EarcutRaw>| v@));
        lemma_tessellate_all_groups(m, vs.drop_last());
    }
}

/// `tess_apply` reads and writes the tessellation columns only.
proof fn lemma_tess_apply_local(a: GeometryModel, b: GeometryModel, e: Seq<EarcutRaw>)
    requires
        same_tess(a, b),
    ensures
        tess_apply(a, e) is Some <==> tess_apply(b, e) is Some,
        tess_apply(a, e) is Some ==> same_tess(tess_apply(a, e).unwrap(), tess_apply(b, e).unwrap())
            && untessellated(tess_apply(a, e).unwrap()) == untessellated(a),
{
}

/// `tessellate_groups` reads and writes the tessellation columns only.
proof fn lemma_tessellate_groups_local(a: GeometryModel, b: GeometryModel, gs: Seq<Seq<EarcutRaw>>)
    requires
        same_tess(a, b),
    ensures
        tessellate_groups(a, gs) is Some <==> tessellate_groups(b, gs) is Some,
        tessellate_groups(a, gs) is Some ==> same_tess(
            tessellate_groups(a, gs).unwrap(),
            tessellate_groups(b, gs).unwrap(),
        ) && untessellated(tessellate_groups(a, gs).unwrap()) == untessellated(a),
    decreases gs.len(),
{
    if gs.len() > 0 {
        lemma_tessellate_groups_local(a, b, gs.drop_last());
        if let Some(a1) = tessellate_groups(a, gs.drop_last()) {
            let b1 = tessellate_groups(b, gs.drop_last()).unwrap();
            lemma_tess_apply_local(a1, b1, gs.last());
        }
    }
}

/// Tessellating with two lists of groups in turn is tessellating with both.
proof fn lemma_tessellate_groups_concat(
    m: GeometryModel,
    a: Seq<Seq<EarcutRaw>>,
    b: Seq<Seq<EarcutRaw>>,
)
    ensures
        tessellate_groups(m, a + b) == match tessellate_groups(m, a) {
            Some(m1) => tessellate_groups(m1, b),
            None => None,
        },
    decreases b.len(),
{
    if b.len() == 0 {
        assert(a + b =~= a);
    } else {
        assert((a + b).drop_last() =~= a + b.drop_last());
        assert((a + b).last() == b.last());
        lemma_tessellate_groups_concat(m, a, b.drop_last());
    }
}

/// Appending one geometry with tessellation on does what appending it with
/// tessellation off does, plus tessellating its polygon features.
proof fn lemma_push_geom_split(m: GeometryModel, g: Geom32, ecs: Seq<EarcutRaw>)
    requires
        m.triangles is Some,
        push_geom_spec(m, g, ecs) is Some,
    ensures
        push_geom_spec(untessellated(m), g, Seq::empty()) is Some,
        untessellated(push_geom_spec(m, g, ecs).unwrap()) == push_geom_spec(
            untessellated(m),
            g,
            Seq::empty(),
        ).unwrap(),
        tessellate_groups(m, geom_groups(g, ecs)) is Some,
        same_tess(
            push_geom_spec(m, g, ecs).unwrap(),
            tessellate_groups(m, geom_groups(g, ecs)).unwrap(),
        ),
    decreases g,
{
    let e = Seq::<EarcutRaw>::empty();
    match g {
        Geom32::GeometryCollection(cs) => {
            lemma_push_all_split(m, cs@, ecs);
        },
        Geom32::Polygon(_) | Geom32::MultiPolygon(_) | Geom32::Rect(_) | Geom32::Triangle(_) => {
            assert(geom_groups(g, ecs).drop_last() =~= Seq::<Seq<EarcutRaw>>::empty());
            assert(geom_groups(g, ecs).last() == ecs);
            let r = push_geom_spec(m, g, ecs).unwrap();
            let ru = push_geom_spec(untessellated(m), g, e).unwrap();
            assert(untessellated(r) =~~= ru);
            assert(same_tess(r, tess_apply(m, ecs).unwrap()));
        },
        _ => {
            assert(geom_groups(g, ecs) =~= Seq::<Seq<EarcutRaw>>::empty());
            assert(tessellate_groups(m, Seq::<Seq<EarcutRaw>>::empty()) == Some(m));
            let r = push_geom_spec(m, g, ecs).unwrap();
            let ru = push_geom_spec(untessellated(m), g, e).unwrap();
            assert(untessellated(r) =~~= ru);
            assert(same_tess(r, m));
        },
    }
}

/// Appending geometries with tessellation on does what appending them with
/// tessellation off does, plus tessellating their polygon features in order.
proof fn lemma_push_all_split(m: GeometryModel, gs: Seq<Geom32>, ecs: Seq<EarcutRaw>)
    requires
        m.triangles is Some,
        push_all_spec(m, gs, ecs) is Some,
    ensures
        push_all_spec(untessellated(m), gs, Seq::empty()) is Some,
        untessellated(push_all_spec(m, gs, ecs).unwrap()) == push_all_spec(
            untessellated(m),
            gs,
            Seq::empty(),
        ).unwrap(),
        tessellate_groups(m, polygon_groups(gs, ecs)) is Some,
        same_tess(
            push_all_spec(m, gs, ecs).unwrap(),
            tessellate_groups(m, polygon_groups(gs, ecs)).unwrap(),
        ),
    decreases gs,
{
    let e = Seq::<EarcutRaw>::empty();
    if gs.len() > 0 {
        let init = gs.subrange(0, gs.len() - 1);
        let last = gs[gs.len() - 1];
        let k = polygon_count_all(init) as int;
        lemma_push_all_split(m, init, ecs.take(k));
        let m1 = push_all_spec(m, init, ecs.take(k)).unwrap();
        crate::model::lemma_push_all_keeps_tessellation(m, init, ecs.take(k));
        lemma_push_geom_split(m1, last, ecs.skip(k));
        assert(e.take(0) =~= e);
        assert(e.skip(0) =~= e);
        let ga = polygon_groups(init, ecs.take(k));
        let gb = geom_groups(last, ecs.skip(k));
        lemma_tessellate_groups_concat(m, ga, gb);
        let t1 = tessellate_groups(m, ga).unwrap();
        lemma_tessellate_groups_local(m1, t1, gb);
    }
}

/// Tessellating a collection after building it gives what building it with
/// tessellation on gives: for geometries whose tessellated build does not
/// fault, with `ecs` the triangulations of all their polygons in order and
/// `groups` those of each polygon feature, building without tessellation
/// does not fault and computing the tessellation from `groups` yields the
/// same collection, every column included.
pub proof fn lemma_compute_tessellation_matches_push(
    gs: Seq<Geom32>,
    ecs: Seq<EarcutRaw>,
    groups: Seq<Vec<EarcutRaw>>,
)
    requires
        from_geoms_spec(gs, true, ecs) is Some,
        groups.map_values(|v: Vec<EarcutRaw>| v@) == polygon_groups(gs, ecs),
    ensures
        from_geoms_spec(gs, false, Seq::empty()) is Some,
        compute_tessellation_spec(from_geoms_spec(gs, false, Seq::empty()).unwrap(), groups)
            == from_geoms_spec(gs, true, ecs),
{
    let m0 = initial_model(gs, true);
    let e = Seq::<EarcutRaw>::empty();
    assert(untessellated(m0) == initial_model(gs, false));
    lemma_push_all_split(m0, gs, ecs);
    let t = from_geoms_spec(gs, true, ecs).unwrap();
    let u = from_geoms_spec(gs, false, e).unwrap();
    let g = polygon_groups(gs, ecs);
    crate::model::lemma_push_all_keeps_tessellation(initial_model(gs, false), gs, e);
    assert(u.index_buffer is None);
    let s = GeometryModel { triangles: Some(Seq::empty()), ..u };
    assert(same_tess(s, m0));
    lemma_tessellate_groups_local(s, m0, g);
    lemma_tessellate_all_groups(s, groups);
    let c = tessellate_groups(s, g).unwrap();
    assert(untessellated(c) == untessellated(s));
    assert(c =~~= t);
}

/// Tessellating keeps the tessellation columns present.
proof fn lemma_tessellate_groups_keeps(m: GeometryModel, gs: Seq<Seq<EarcutRaw>>)
    requires
        m.triangles is Some,
        tessellate_groups(m, gs) is Some,
    ensures
        tessellate_groups(m, gs).unwrap().triangles is Some,
    decreases gs.len(),
{
    if gs.len() > 0 {
        lemma_tessellate_groups_keeps(m, gs.drop_last());
    }
}

/// Computing the tessellation is idempotent: a tessellated collection is
/// left as it is, so computing it again after a first time changes nothing,
/// whatever triangulations are given the second time.
pub proof fn lemma_compute_tessellation_idempotent(
    m: GeometryModel,
    first: Seq<Vec<EarcutRaw>>,
    second: Seq<Vec<EarcutRaw>>,
)
    requires
        compute_tessellation_spec(m, first) is Some,
    ensures
        compute_tessellation_spec(compute_tessellation_spec(m, first).unwrap(), second)
            == compute_tessellation_spec(m, first),
{
    if m.triangles is None {
        let s = GeometryModel { triangles: Some(Seq::empty()), ..m };
        lemma_tessellate_all_groups(s, first);
        lemma_tessellate_groups_keeps(s, first.map_values(|v: Vec<EarcutRaw>| v@));
    }
}

} // verus!
