//! Columnar geometry storage and the appending of row-level geometries to it.
use vstd::prelude::*;

use crate::geom::{Coord32, Geom32, LineString32, Polygon32};
use crate::geometry_type::GeometryType;
use crate::model::{
    EarcutRaw, GeometryModel, RingState, any_line_or_poly, any_multi, any_polygonal, bump,
    bump_each, bump_each_ok, bump_ok, compute_tessellation_spec, earcuts_needed, empty_model,
    flatten, from_geoms_spec, init_offsets_spec, init_polygon_offsets_spec, initial_model,
    lemma_any_step, lemma_polygon_count_mono, lemma_polygon_count_step, lemma_push_all_prefix,
    lemma_push_keeps_tessellation, lines_coords, lines_offsets, lines_offsets_ok,
    lines_vertices, opt_view, or_empty, polygon_count, polygon_count_all, polygon_rings,
    polygon_step, polygon_step_ok, polygons_rings, polygons_state, polygons_state_ok,
    prefix_earcuts, push_all_spec, push_geom_spec, push_lines_spec, push_multi_point_spec,
    push_point_spec, push_polygons_spec, shifted, strip_closing, stripped_rings, tess_apply,
    tess_ok, tess_state, tessellate_all, earcut_valid, earcuts_valid, lemma_earcuts_valid_subrange,
};

verus! {

/// Parsed (decoded) geometry data in columnar form.
#[derive(Debug)]
pub struct GeometryValues {
    pub vector_types: Vec<GeometryType>,
    pub geometry_offsets: Option<Vec<u32>>,
    pub part_offsets: Option<Vec<u32>>,
    pub ring_offsets: Option<Vec<u32>>,
    pub index_buffer: Option<Vec<u32>>,
    pub triangles: Option<Vec<u32>>,
    pub vertices: Option<Vec<i32>>,
}

impl View for GeometryValues {
    type V = GeometryModel;

    open spec fn view(&self) -> GeometryModel {
        GeometryModel {
            vector_types: self.vector_types@,
            geometry_offsets: opt_view(self.geometry_offsets),
            part_offsets: opt_view(self.part_offsets),
            ring_offsets: opt_view(self.ring_offsets),
            index_buffer: opt_view(self.index_buffer),
            triangles: opt_view(self.triangles),
            vertices: opt_view(self.vertices),
        }
    }
}

/// A copy of an optional buffer.
fn clone_buffer<T: Copy>(o: &Option<Vec<T>>) -> (r: Option<Vec<T>>)
    ensures
        opt_view(r) == opt_view(*o),
{
    match o {
        Some(v) => {
            let c = vstd::slice::slice_to_vec(v.as_slice());
            assert(c@ =~= v@);
            Some(c)
        },
        None => None,
    }
}

impl Clone for GeometryValues {
    /// A copy with the same buffers.
    fn clone(&self) -> (g: GeometryValues)
        ensures
            g@ == self@,
    {
        let vector_types = vstd::slice::slice_to_vec(self.vector_types.as_slice());
        assert(vector_types@ =~= self.vector_types@);
        GeometryValues {
            vector_types,
            geometry_offsets: clone_buffer(&self.geometry_offsets),
            part_offsets: clone_buffer(&self.part_offsets),
            ring_offsets: clone_buffer(&self.ring_offsets),
            index_buffer: clone_buffer(&self.index_buffer),
            triangles: clone_buffer(&self.triangles),
            vertices: clone_buffer(&self.vertices),
        }
    }
}

impl Default for GeometryValues {
    fn default() -> (g: GeometryValues)
        ensures
            g@ == empty_model(),
    {
        GeometryValues {
            vector_types: Vec::new(),
            geometry_offsets: None,
            part_offsets: None,
            ring_offsets: None,
            index_buffer: None,
            triangles: None,
            vertices: None,
        }
    }
}

/// A borrowed view of an optional column.
fn opt_slice<T>(o: &Option<Vec<T>>) -> (r: Option<&[T]>)
    ensures
        match (o, r) {
            (Some(v), Some(s)) => s@ == v@,
            (None, None) => true,
            _ => false,
        },
{
    match o {
        Some(v) => Some(v.as_slice()),
        None => None,
    }
}

/// Takes the vector out of `o`, reading an absent one as empty.
fn take_vec<T>(o: &mut Option<Vec<T>>) -> (v: Vec<T>)
    ensures
        v@ == or_empty(opt_view(*old(o))),
        *final(o) is None,
{
    match o.take() {
        Some(v) => v,
        None => Vec::new(),
    }
}

/// Ensures the offset array starts with 0.
fn init_offsets(v: &mut Vec<u32>)
    ensures
        final(v)@ == init_offsets_spec(old(v)@),
{
    if v.len() == 0 {
        v.push(0);
    }
}

/// Pushes `last + d` onto a present offset array.
fn bump_offsets(o: &mut Option<Vec<u32>>, d: u32)
    requires
        bump_ok(opt_view(*old(o)), d as int),
    ensures
        opt_view(*final(o)) == bump(opt_view(*old(o)), d as int),
{
    match o.take() {
        Some(mut v) => {
            let last = v[v.len() - 1];
            v.push(last + d);
            *o = Some(v);
        },
        None => {},
    }
}

/// Pushes `last + 1, ..., last + n` onto a present offset array.
fn bump_offsets_each(o: &mut Option<Vec<u32>>, n: u32)
    requires
        bump_each_ok(opt_view(*old(o)), n as int),
    ensures
        opt_view(*final(o)) == bump_each(opt_view(*old(o)), n as int),
{
    match o.take() {
        Some(mut v) => {
            let ghost start = v@;
            let mut i: u32 = 0;
            while i < n
                invariant
                    0 <= i <= n,
                    n == 0 || (start.len() > 0 && start.last() + n <= u32::MAX),
                    v@ == start + Seq::new(i as nat, |k: int| (start.last() + k + 1) as u32),
                decreases n - i,
            {
                let last = v[v.len() - 1];
                assert(i == 0 ==> last == start.last());
                assert(i > 0 ==> last == (start.last() + i) as u32);
                v.push(last + 1);
                i = i + 1;
                assert(v@ =~= start + Seq::new(i as nat, |k: int| (start.last() + k + 1) as u32));
            }
            *o = Some(v);
        },
        None => {},
    }
}

proof fn lemma_flatten_step(cs: Seq<Coord32>, i: int)
    requires
        0 <= i < cs.len(),
    ensures
        flatten(cs.take(i + 1)) == flatten(cs.take(i)) + seq![cs[i].x, cs[i].y],
{
    assert(cs.take(i + 1).drop_last() =~= cs.take(i));
}

/// Appends the coordinates of `cs` to `verts`, flat.
fn push_coords(verts: &mut Vec<i32>, cs: &[Coord32])
    ensures
        final(verts)@ == old(verts)@ + flatten(cs@),
{
    let ghost start = verts@;
    let n = cs.len();
    let mut i: usize = 0;
    while i < n
        invariant
            0 <= i <= n,
            n == cs@.len(),
            verts@ == start + flatten(cs@.take(i as int)),
        decreases n - i,
    {
        let c = cs[i];
        verts.push(c.x);
        verts.push(c.y);
        proof {
            lemma_flatten_step(cs@, i as int);
        }
        i = i + 1;
    }
    assert(cs@.take(n as int) =~= cs@);
}

proof fn lemma_lines_prefix(offs: Seq<u32>, lines: Seq<Seq<Coord32>>, k: int)
    requires
        0 <= k <= lines.len(),
        lines_offsets_ok(offs, lines),
        offs.len() > 0,
    ensures
        lines_offsets_ok(offs, lines.take(k)),
        lines_offsets(offs, lines.take(k)).len() == offs.len() + k,
    decreases lines.len() - k,
{
    if k == lines.len() {
        assert(lines.take(k) =~= lines);
        lemma_lines_len(offs, lines);
    } else {
        lemma_lines_prefix(offs, lines, k + 1);
        assert(lines.take(k + 1).drop_last() =~= lines.take(k));
        lemma_lines_len(offs, lines.take(k));
    }
}

proof fn lemma_lines_len(offs: Seq<u32>, lines: Seq<Seq<Coord32>>)
    ensures
        lines_offsets(offs, lines).len() == offs.len() + lines.len(),
    decreases lines.len(),
{
    if lines.len() > 0 {
        lemma_lines_len(offs, lines.drop_last());
    }
}

/// Appends one line: its coordinates to `verts` and `last + count` to `offsets`.
fn push_line(verts: &mut Vec<i32>, offsets: &mut Vec<u32>, cs: &[Coord32])
    requires
        old(offsets)@.len() > 0,
        old(offsets)@.last() + cs@.len() <= u32::MAX,
    ensures
        final(verts)@ == old(verts)@ + flatten(cs@),
        final(offsets)@ == old(offsets)@.push((old(offsets)@.last() + cs@.len()) as u32),
{
    push_coords(verts, cs);
    let prev = offsets[offsets.len() - 1];
    let n = cs.len();
    offsets.push(prev + n as u32);
}

/// Appends each line of `lines`: coordinates to `verts`, cumulative vertex
/// counts to `offsets` (which first gets a leading 0 if empty).
fn push_linestrings(lines: &[LineString32], verts: &mut Vec<i32>, offsets: &mut Vec<u32>)
    requires
        lines_offsets_ok(init_offsets_spec(old(offsets)@), lines_coords(lines@)),
    ensures
        final(verts)@ == lines_vertices(old(verts)@, lines_coords(lines@)),
        final(offsets)@ == lines_offsets(init_offsets_spec(old(offsets)@), lines_coords(lines@)),
{
    init_offsets(offsets);
    let ghost v0 = verts@;
    let ghost o0 = offsets@;
    let ghost ls = lines_coords(lines@);
    let n = lines.len();
    let mut i: usize = 0;
    while i < n
        invariant
            0 <= i <= n,
            n == lines@.len(),
            ls == lines_coords(lines@),
            o0.len() > 0,
            lines_offsets_ok(o0, ls),
            verts@ == lines_vertices(v0, ls.take(i as int)),
            offsets@ == lines_offsets(o0, ls.take(i as int)),
        decreases n - i,
    {
        proof {
            lemma_lines_prefix(o0, ls, i + 1);
            assert(ls.take(i + 1).drop_last() =~= ls.take(i as int));
            lemma_lines_prefix(o0, ls, i as int);
        }
        let line = &lines[i];
        assert(ls[i as int] == line.0@);
        push_line(verts, offsets, line.0.as_slice());
        i = i + 1;
    }
    assert(ls.take(n as int) =~= ls);
}


/// Appends a ring without its closing coordinate: coordinates to `verts`,
/// cumulative vertex count to `rings`.
fn push_ring(ring: &[Coord32], verts: &mut Vec<i32>, rings: &mut Vec<u32>)
    requires
        old(rings)@.len() > 0,
        old(rings)@.last() + strip_closing(ring@).len() <= u32::MAX,
    ensures
        final(verts)@ == old(verts)@ + flatten(strip_closing(ring@)),
        final(rings)@ == old(rings)@.push(
            (old(rings)@.last() + strip_closing(ring@).len()) as u32,
        ),
{
    let n = ring.len();
    let len = if n > 1 && ring[n - 1] == ring[0] {
        n - 1
    } else {
        n
    };
    let kept = vstd::slice::slice_subrange(ring, 0, len);
    assert(kept@ =~= strip_closing(ring@));
    push_line(verts, rings, kept);
}

proof fn lemma_polygon_step_unfold(st: RingState, rings: Seq<Seq<Coord32>>, k: int)
    requires
        0 <= k < rings.len(),
    ensures
        stripped_rings(rings).take(k + 1).drop_last() == stripped_rings(rings).take(k),
        stripped_rings(rings)[k] == strip_closing(rings[k]),
        stripped_rings(rings).len() == rings.len(),
{
    assert(stripped_rings(rings).take(k + 1).drop_last() =~= stripped_rings(rings).take(k));
}

/// Appends the rings of one polygon, exterior first, and one part offset
/// counting them.
fn push_polygon_rings(
    poly: &Polygon32,
    verts: &mut Vec<i32>,
    rings: &mut Vec<u32>,
    parts: &mut Vec<u32>,
)
    requires
        polygon_step_ok((old(verts)@, old(rings)@, old(parts)@), polygon_rings(*poly)),
    ensures
        (final(verts)@, final(rings)@, final(parts)@) == polygon_step(
            (old(verts)@, old(rings)@, old(parts)@),
            polygon_rings(*poly),
        ),
{
    let ghost rs = polygon_rings(*poly);
    let ghost sr = stripped_rings(rs);
    let ghost v0 = verts@;
    let ghost r0 = rings@;
    let mut ring_count = parts[parts.len() - 1];
    let ghost p_last = ring_count;
    let n = poly.interiors.len() + 1;
    assert(rs.len() == n);
    let mut k: usize = 0;
    while k < n
        invariant
            0 <= k <= n,
            n == rs.len(),
            rs == polygon_rings(*poly),
            sr == stripped_rings(rs),
            sr.len() == rs.len(),
            r0.len() > 0,
            lines_offsets_ok(r0, sr),
            p_last + sr.len() <= u32::MAX,
            verts@ == lines_vertices(v0, sr.take(k as int)),
            rings@ == lines_offsets(r0, sr.take(k as int)),
            ring_count == p_last + k,
            parts@ == old(parts)@,
            p_last == old(parts)@.last(),
        decreases n - k,
    {
        proof {
            lemma_polygon_step_unfold((v0, r0, old(parts)@), rs, k as int);
            lemma_lines_prefix(r0, sr, k + 1);
            lemma_lines_prefix(r0, sr, k as int);
        }
        let ring: &[Coord32] = if k == 0 {
            poly.exterior.0.as_slice()
        } else {
            poly.interiors[k - 1].0.as_slice()
        };
        assert(ring@ == rs[k as int]);
        push_ring(ring, verts, rings);
        ring_count = ring_count + 1;
        k = k + 1;
    }
    assert(sr.take(n as int) =~= sr);
    parts.push(ring_count);
}

proof fn lemma_polys_prefix(st: RingState, polys: Seq<Seq<Seq<Coord32>>>, k: int)
    requires
        0 <= k <= polys.len(),
        polygons_state_ok(st, polys),
    ensures
        polygons_state_ok(st, polys.take(k)),
    decreases polys.len() - k,
{
    if k == polys.len() {
        assert(polys.take(k) =~= polys);
    } else {
        lemma_polys_prefix(st, polys, k + 1);
        assert(polys.take(k + 1).drop_last() =~= polys.take(k));
    }
}

proof fn lemma_tessellate_all_prefix(m: GeometryModel, ecs: Seq<Vec<EarcutRaw>>, k: int)
    requires
        0 <= k <= ecs.len(),
        tessellate_all(m, ecs) is Some,
    ensures
        tessellate_all(m, ecs.take(k)) is Some,
    decreases ecs.len() - k,
{
    if k == ecs.len() {
        assert(ecs.take(k) =~= ecs);
    } else {
        lemma_tessellate_all_prefix(m, ecs, k + 1);
        assert(ecs.take(k + 1).drop_last() =~= ecs.take(k));
    }
}

proof fn lemma_tess_prefix(ib: Seq<u32>, ecs: Seq<EarcutRaw>, k: int)
    requires
        0 <= k <= ecs.len(),
        tess_ok(ib, ecs),
    ensures
        tess_ok(ib, ecs.take(k)),
    decreases ecs.len() - k,
{
    if k == ecs.len() {
        assert(ecs.take(k) =~= ecs);
    } else {
        lemma_tess_prefix(ib, ecs, k + 1);
        assert(ecs.take(k + 1).drop_last() =~= ecs.take(k));
    }
}

/// Appends the triangle indices of one triangulation, shifted by
/// `vertex_offset`, and returns its triangle and vertex counts.
fn earcut_into(raw: &EarcutRaw, vertex_offset: u32, index_buf: &mut Vec<u32>) -> (r: (u32, u32))
    requires
        raw.triangle_indices@.len() / 3 <= u32::MAX,
        raw.num_vertices <= u32::MAX,
        forall|i: int|
            0 <= i < raw.triangle_indices@.len() ==> #[trigger] raw.triangle_indices@[i]
                + vertex_offset <= u32::MAX,
    ensures
        final(index_buf)@ == old(index_buf)@ + shifted(
            raw.triangle_indices@,
            vertex_offset as int,
        ),
        r.0 == raw.triangle_indices@.len() / 3,
        r.1 == raw.num_vertices,
{
    let ghost start = index_buf@;
    let num_triangles = (raw.triangle_indices.len() / 3) as u32;
    let num_vertices = raw.num_vertices as u32;
    let n = raw.triangle_indices.len();
    let mut i: usize = 0;
    while i < n
        invariant
            0 <= i <= n,
            n == raw.triangle_indices@.len(),
            forall|j: int|
                0 <= j < raw.triangle_indices@.len() ==> #[trigger] raw.triangle_indices@[j]
                    + vertex_offset <= u32::MAX,
            index_buf@ == start + shifted(
                raw.triangle_indices@.take(i as int),
                vertex_offset as int,
            ),
        decreases n - i,
    {
        let base = raw.triangle_indices[i] as u32;
        index_buf.push(base + vertex_offset);
        i = i + 1;
        assert(start + shifted(raw.triangle_indices@.take(i as int), vertex_offset as int)
            =~= index_buf@);
    }
    assert(raw.triangle_indices@.take(n as int) =~= raw.triangle_indices@);
    (num_triangles, num_vertices)
}

impl GeometryValues {
    /// Constructs from pre-built columnar arrays, without tessellation data.
    ///
    /// Offset arrays are expected in the dense format: `geometry_offsets` has
    /// one entry per feature plus one, `part_offsets` is indexed by cumulative
    /// sub-geometry count and `ring_offsets` by cumulative part count.
    pub fn from_columnar(
        vector_types: Vec<GeometryType>,
        vertices: Option<Vec<i32>>,
        geometry_offsets: Option<Vec<u32>>,
        part_offsets: Option<Vec<u32>>,
        ring_offsets: Option<Vec<u32>>,
    ) -> (g: GeometryValues)
        ensures
            g@ == (GeometryModel {
                vector_types: vector_types@,
                geometry_offsets: opt_view(geometry_offsets),
                part_offsets: opt_view(part_offsets),
                ring_offsets: opt_view(ring_offsets),
                index_buffer: None,
                triangles: None,
                vertices: opt_view(vertices),
            }),
    {
        GeometryValues {
            vector_types,
            geometry_offsets,
            part_offsets,
            ring_offsets,
            index_buffer: None,
            triangles: None,
            vertices,
        }
    }

    /// An empty collection whose `triangles` column is present (and empty), so
    /// that polygons appended to it are tessellated.
    pub fn new_tessellated() -> (g: GeometryValues)
        ensures
            g@ == (GeometryModel { triangles: Some(Seq::empty()), ..empty_model() }),
    {
        GeometryValues {
            vector_types: Vec::new(),
            geometry_offsets: None,
            part_offsets: None,
            ring_offsets: None,
            index_buffer: None,
            triangles: Some(Vec::new()),
            vertices: None,
        }
    }

    /// The geometry type of every feature.
    pub fn vector_types(&self) -> (r: &[GeometryType])
        ensures
            r@ == self.vector_types@,
    {
        self.vector_types.as_slice()
    }

    /// The geometry offsets, if present.
    pub fn geometry_offsets(&self) -> (r: Option<&[u32]>)
        ensures
            r matches Some(s) ==> self@.geometry_offsets == Some(s@),
            r is None <==> self@.geometry_offsets is None,
    {
        opt_slice(&self.geometry_offsets)
    }

    /// The part offsets, if present.
    pub fn part_offsets(&self) -> (r: Option<&[u32]>)
        ensures
            r matches Some(s) ==> self@.part_offsets == Some(s@),
            r is None <==> self@.part_offsets is None,
    {
        opt_slice(&self.part_offsets)
    }

    /// The ring offsets, if present.
    pub fn ring_offsets(&self) -> (r: Option<&[u32]>)
        ensures
            r matches Some(s) ==> self@.ring_offsets == Some(s@),
            r is None <==> self@.ring_offsets is None,
    {
        opt_slice(&self.ring_offsets)
    }

    /// The triangle index buffer, if present.
    pub fn index_buffer(&self) -> (r: Option<&[u32]>)
        ensures
            r matches Some(s) ==> self@.index_buffer == Some(s@),
            r is None <==> self@.index_buffer is None,
    {
        opt_slice(&self.index_buffer)
    }

    /// The per-feature triangle counts, if present.
    pub fn triangles(&self) -> (r: Option<&[u32]>)
        ensures
            r matches Some(s) ==> self@.triangles == Some(s@),
            r is None <==> self@.triangles is None,
    {
        opt_slice(&self.triangles)
    }

    /// The flat vertex buffer, if present.
    pub fn vertices(&self) -> (r: Option<&[i32]>)
        ensures
            r matches Some(s) ==> self@.vertices == Some(s@),
            r is None <==> self@.vertices is None,
    {
        opt_slice(&self.vertices)
    }

    /// Appends a point.
    fn push_point(&mut self, coord: Coord32)
        requires
            push_point_spec(old(self)@, coord) is Some,
        ensures
            final(self)@ == push_point_spec(old(self)@, coord).unwrap(),
    {
        self.vector_types.push(GeometryType::Point);
        let ghost m = self@;
        let mut verts = take_vec(&mut self.vertices);
        verts.push(coord.x);
        verts.push(coord.y);
        assert(verts@ =~= or_empty(m.vertices) + seq![coord.x, coord.y]);
        self.vertices = Some(verts);
        self.push_implicit(1);
    }

    /// Pushes cumulative `+delta` onto every present offset array.
    fn push_implicit(&mut self, delta: u32)
        requires
            bump_ok(old(self)@.geometry_offsets, delta as int),
            bump_ok(old(self)@.part_offsets, delta as int),
            bump_ok(old(self)@.ring_offsets, delta as int),
        ensures
            final(self)@ == (GeometryModel {
                geometry_offsets: bump(old(self)@.geometry_offsets, delta as int),
                part_offsets: bump(old(self)@.part_offsets, delta as int),
                ring_offsets: bump(old(self)@.ring_offsets, delta as int),
                ..old(self)@
            }),
    {
        bump_offsets(&mut self.geometry_offsets, delta);
        self.push_implicit_sub(delta);
    }

    /// Pushes cumulative `+delta` onto the present part and ring offsets.
    fn push_implicit_sub(&mut self, delta: u32)
        requires
            bump_ok(old(self)@.part_offsets, delta as int),
            bump_ok(old(self)@.ring_offsets, delta as int),
        ensures
            final(self)@ == (GeometryModel {
                part_offsets: bump(old(self)@.part_offsets, delta as int),
                ring_offsets: bump(old(self)@.ring_offsets, delta as int),
                ..old(self)@
            }),
    {
        bump_offsets(&mut self.part_offsets, delta);
        bump_offsets(&mut self.ring_offsets, delta);
    }


    /// Prepares the offset arrays for polygon storage. On the first polygon,
    /// line-string vertex counts move from the part offsets to the ring offsets.
    fn init_polygon_offsets(&mut self)
        ensures
            final(self)@ == init_polygon_offsets_spec(old(self)@),
    {
        if self.ring_offsets.is_none() {
            match self.part_offsets.take() {
                Some(ls_parts) => {
                    self.ring_offsets = Some(ls_parts);
                },
                None => {},
            }
        }
        let mut rings = take_vec(&mut self.ring_offsets);
        init_offsets(&mut rings);
        self.ring_offsets = Some(rings);
        let mut parts = take_vec(&mut self.part_offsets);
        init_offsets(&mut parts);
        self.part_offsets = Some(parts);
    }

    /// Records the tessellation of one polygon when tessellation is on.
    pub fn tessellate_polygon(&mut self, raw: &EarcutRaw)
        requires
            earcut_valid(*raw),
            tess_apply(old(self)@, seq![*raw]) is Some,
        ensures
            final(self)@ == tess_apply(old(self)@, seq![*raw]).unwrap(),
    {
        let ghost m = self@;
        match self.triangles.take() {
            Some(mut triangles) => {
                let mut ib = take_vec(&mut self.index_buffer);
                proof {
                    assert(seq![*raw].drop_last() =~= Seq::<EarcutRaw>::empty());
                    assert(seq![*raw].last() == *raw);
                }
                let (num_triangles, _) = earcut_into(raw, 0, &mut ib);
                self.index_buffer = Some(ib);
                triangles.push(num_triangles);
                self.triangles = Some(triangles);
            },
            None => {},
        }
    }

    /// Records the tessellation of all polygons of one multi-polygon when
    /// tessellation is on: indices of each polygon are offset by the vertex
    /// counts of the polygons before it, and one total triangle count is
    /// recorded.
    pub fn tessellate_multi_polygon(&mut self, ecs: &[EarcutRaw])
        requires
            earcuts_valid(ecs@),
            tess_apply(old(self)@, ecs@) is Some,
        ensures
            final(self)@ == tess_apply(old(self)@, ecs@).unwrap(),
    {
        let ghost m = self@;
        match self.triangles.take() {
            Some(mut triangles) => {
                let mut ib = take_vec(&mut self.index_buffer);
                let ghost ib0 = ib@;
                let mut total_triangles: u32 = 0;
                let mut vertex_offset: u32 = 0;
                let n = ecs.len();
                let mut k: usize = 0;
                while k < n
                    invariant
                        0 <= k <= n,
                        n == ecs@.len(),
                        tess_ok(ib0, ecs@),
                        tess_state(ib0, ecs@.take(k as int)) == (
                            ib@,
                            total_triangles as int,
                            vertex_offset as int,
                        ),
                    decreases n - k,
                {
                    proof {
                        lemma_tess_prefix(ib0, ecs@, k + 1);
                        assert(ecs@.take(k + 1).drop_last() =~= ecs@.take(k as int));
                    }
                    let (num_triangles, num_verts) = earcut_into(&ecs[k], vertex_offset, &mut ib);
                    total_triangles = total_triangles + num_triangles;
                    vertex_offset = vertex_offset + num_verts;
                    k = k + 1;
                }
                assert(ecs@.take(n as int) =~= ecs@);
                self.index_buffer = Some(ib);
                triangles.push(total_triangles);
                self.triangles = Some(triangles);
            },
            None => {},
        }
    }

    /// Computes the tessellation of all polygon and multi-polygon features
    /// when none exists yet: `triangles` becomes present and, for each
    /// polygon feature in order, `earcuts[k]` (the triangulations of its
    /// polygons) is recorded as by [`Self::tessellate_multi_polygon`].
    /// Does nothing when tessellation data already exists.
    pub fn compute_tessellation(&mut self, earcuts: &[Vec<EarcutRaw>])
        requires
            forall|k: int| 0 <= k < earcuts@.len() ==> earcuts_valid(#[trigger] earcuts@[k]@),
            compute_tessellation_spec(old(self)@, earcuts@) is Some,
        ensures
            final(self)@ == compute_tessellation_spec(old(self)@, earcuts@).unwrap(),
    {
        if self.triangles.is_some() {
            return;
        }
        self.triangles = Some(Vec::new());
        let ghost m0 = self@;
        let n = earcuts.len();
        let mut k: usize = 0;
        while k < n
            invariant
                0 <= k <= n,
                n == earcuts@.len(),
                forall|j: int| 0 <= j < earcuts@.len() ==> earcuts_valid(#[trigger] earcuts@[j]@),
                tessellate_all(m0, earcuts@) is Some,
                tessellate_all(m0, earcuts@.take(k as int)) == Some(self@),
            decreases n - k,
        {
            proof {
                lemma_tessellate_all_prefix(m0, earcuts@, k + 1);
                assert(earcuts@.take(k + 1).drop_last() =~= earcuts@.take(k as int));
            }
            self.tessellate_multi_polygon(earcuts[k].as_slice());
            k = k + 1;
        }
        assert(earcuts@.take(n as int) =~= earcuts@);
    }

    /// Appends one polygon; `ecs` holds its triangulation when tessellating.
    fn push_polygon(&mut self, poly: &Polygon32, ecs: &[EarcutRaw])
        requires
            earcuts_valid(ecs@),
            ecs@.len() == if old(self)@.triangles is Some {
                1int
            } else {
                0
            },
            push_polygons_spec(old(self)@, GeometryType::Polygon, seq![polygon_rings(*poly)], ecs@)
                is Some,
        ensures
            final(self)@ == push_polygons_spec(
                old(self)@,
                GeometryType::Polygon,
                seq![polygon_rings(*poly)],
                ecs@,
            ).unwrap(),
    {
        let ghost pr = seq![polygon_rings(*poly)];
        self.vector_types.push(GeometryType::Polygon);
        self.init_polygon_offsets();
        let mut verts = take_vec(&mut self.vertices);
        let mut rings = take_vec(&mut self.ring_offsets);
        let mut parts = take_vec(&mut self.part_offsets);
        let ghost st: RingState = (verts@, rings@, parts@);
        proof {
            assert(pr.drop_last() =~= Seq::<Seq<Seq<Coord32>>>::empty());
        }
        push_polygon_rings(poly, &mut verts, &mut rings, &mut parts);
        self.vertices = Some(verts);
        self.ring_offsets = Some(rings);
        self.part_offsets = Some(parts);
        bump_offsets(&mut self.geometry_offsets, 1);
        if self.triangles.is_some() {
            assert(ecs@ =~= seq![ecs@[0]]);
            self.tessellate_polygon(&ecs[0]);
        }
    }

    /// Appends a multi-polygon; `ecs` holds the triangulations of its members
    /// when tessellating.
    fn push_multi_polygon(&mut self, polys: &[Polygon32], ecs: &[EarcutRaw])
        requires
            earcuts_valid(ecs@),
            ecs@.len() == if old(self)@.triangles is Some {
                polys@.len()
            } else {
                0
            },
            push_polygons_spec(old(self)@, GeometryType::MultiPolygon, polygons_rings(polys@), ecs@)
                is Some,
        ensures
            final(self)@ == push_polygons_spec(
                old(self)@,
                GeometryType::MultiPolygon,
                polygons_rings(polys@),
                ecs@,
            ).unwrap(),
    {
        let ghost pr = polygons_rings(polys@);
        self.vector_types.push(GeometryType::MultiPolygon);
        self.init_polygon_offsets();
        let mut verts = take_vec(&mut self.vertices);
        let mut rings = take_vec(&mut self.ring_offsets);
        let mut parts = take_vec(&mut self.part_offsets);
        let ghost st: RingState = (verts@, rings@, parts@);
        let n = polys.len();
        let mut k: usize = 0;
        while k < n
            invariant
                0 <= k <= n,
                n == polys@.len(),
                pr == polygons_rings(polys@),
                pr.len() == n,
                polygons_state_ok(st, pr),
                polygons_state(st, pr.take(k as int)) == (verts@, rings@, parts@),
            decreases n - k,
        {
            proof {
                lemma_polys_prefix(st, pr, k + 1);
                assert(pr.take(k + 1).drop_last() =~= pr.take(k as int));
                assert(pr[k as int] == polygon_rings(polys@[k as int]));
            }
            push_polygon_rings(&polys[k], &mut verts, &mut rings, &mut parts);
            k = k + 1;
        }
        assert(pr.take(n as int) =~= pr);
        self.vertices = Some(verts);
        self.ring_offsets = Some(rings);
        self.part_offsets = Some(parts);
        bump_offsets(&mut self.geometry_offsets, n as u32);
        self.tessellate_multi_polygon(ecs);
    }

    /// Appends a multi-point.
    fn push_multi_point(&mut self, pts: &[Coord32])
        requires
            push_multi_point_spec(old(self)@, pts@) is Some,
        ensures
            final(self)@ == push_multi_point_spec(old(self)@, pts@).unwrap(),
    {
        self.vector_types.push(GeometryType::MultiPoint);
        let mut verts = take_vec(&mut self.vertices);
        push_coords(&mut verts, pts);
        self.vertices = Some(verts);
        let count = pts.len() as u32;
        bump_offsets(&mut self.geometry_offsets, count);
        bump_offsets_each(&mut self.part_offsets, count);
        bump_offsets_each(&mut self.ring_offsets, count);
    }

    /// Appends a line string given by its coordinates.
    fn push_linestring(&mut self, cs: &[Coord32])
        requires
            push_lines_spec(old(self)@, GeometryType::LineString, seq![cs@]) is Some,
        ensures
            final(self)@ == push_lines_spec(old(self)@, GeometryType::LineString, seq![cs@]).unwrap(),
    {
        let ghost m = self@;
        let ghost lines = seq![cs@];
        proof {
            assert(lines.drop_last() =~= Seq::<Seq<Coord32>>::empty());
        }
        self.vector_types.push(GeometryType::LineString);
        let mut verts = take_vec(&mut self.vertices);
        let has_ring = self.ring_offsets.is_some();
        if has_ring {
            let mut offsets = take_vec(&mut self.ring_offsets);
            init_offsets(&mut offsets);
            push_line(&mut verts, &mut offsets, cs);
            self.ring_offsets = Some(offsets);
        } else {
            let mut offsets = take_vec(&mut self.part_offsets);
            init_offsets(&mut offsets);
            push_line(&mut verts, &mut offsets, cs);
            self.part_offsets = Some(offsets);
        }
        self.vertices = Some(verts);
        assert(lines_vertices(or_empty(m.vertices), Seq::empty()) == or_empty(m.vertices));
        assert(lines.last() == cs@);
        assert(lines_vertices(or_empty(m.vertices), lines) =~= or_empty(m.vertices) + flatten(cs@));
        bump_offsets(&mut self.geometry_offsets, 1);
        if has_ring {
            bump_offsets(&mut self.part_offsets, 1);
        }
    }

    /// Appends a multi-line-string.
    fn push_multi_linestring(&mut self, lines: &[LineString32])
        requires
            push_lines_spec(old(self)@, GeometryType::MultiLineString, lines_coords(lines@)) is Some,
        ensures
            final(self)@ == push_lines_spec(
                old(self)@,
                GeometryType::MultiLineString,
                lines_coords(lines@),
            ).unwrap(),
    {
        self.vector_types.push(GeometryType::MultiLineString);
        let mut verts = take_vec(&mut self.vertices);
        let has_ring = self.ring_offsets.is_some();
        if has_ring {
            let mut offsets = take_vec(&mut self.ring_offsets);
            push_linestrings(lines, &mut verts, &mut offsets);
            self.ring_offsets = Some(offsets);
        } else {
            let mut offsets = take_vec(&mut self.part_offsets);
            push_linestrings(lines, &mut verts, &mut offsets);
            self.part_offsets = Some(offsets);
        }
        self.vertices = Some(verts);
        let count = lines.len() as u32;
        bump_offsets(&mut self.geometry_offsets, count);
        if has_ring {
            bump_offsets_each(&mut self.part_offsets, count);
        }
    }

    /// Appends `geom`, taking the triangulations of its polygons from
    /// `ecs[pos..]`; returns the position after the ones used.
    fn push_geom_at(&mut self, geom: &Geom32, ecs: &[EarcutRaw], pos: usize) -> (next: usize)
        requires
            earcuts_valid(ecs@),
            pos + earcuts_needed(old(self)@.triangles is Some, *geom) <= ecs@.len(),
            push_geom_spec(
                old(self)@,
                *geom,
                ecs@.subrange(
                    pos as int,
                    pos + earcuts_needed(old(self)@.triangles is Some, *geom),
                ),
            ) is Some,
        ensures
            next == pos + earcuts_needed(old(self)@.triangles is Some, *geom),
            final(self)@ == push_geom_spec(
                old(self)@,
                *geom,
                ecs@.subrange(pos as int, next as int),
            ).unwrap(),
        decreases *geom,
    {
        let tri = self.triangles.is_some();
        let ecs_len = ecs.len();
        assert(tri == (old(self)@.triangles is Some));
        match geom {
            Geom32::Point(p) => {
                self.push_point(*p);
                pos
            },
            Geom32::Line(l) => {
                let cs = vec![l.start, l.end];
                assert(cs@ =~= seq![l.start, l.end]);
                self.push_linestring(cs.as_slice());
                pos
            },
            Geom32::LineString(ls) => {
                self.push_linestring(ls.0.as_slice());
                pos
            },
            Geom32::Polygon(p) => {
                assert(polygon_count(*geom) == 1);
                let next = if tri { pos + 1 } else { pos };
                proof { lemma_earcuts_valid_subrange(ecs@, pos as int, next as int); }
                self.push_polygon(p, vstd::slice::slice_subrange(ecs, pos, next));
                next
            },
            Geom32::Triangle(t) => {
                assert(polygon_count(*geom) == 1);
                let p = t.to_polygon();
                assert(polygon_rings(p) =~= seq![t.spec_ring()]);
                let next = if tri { pos + 1 } else { pos };
                proof { lemma_earcuts_valid_subrange(ecs@, pos as int, next as int); }
                self.push_polygon(&p, vstd::slice::slice_subrange(ecs, pos, next));
                next
            },
            Geom32::Rect(r) => {
                assert(polygon_count(*geom) == 1);
                let p = r.to_polygon();
                assert(polygon_rings(p) =~= seq![r.spec_ring()]);
                let next = if tri { pos + 1 } else { pos };
                proof { lemma_earcuts_valid_subrange(ecs@, pos as int, next as int); }
                self.push_polygon(&p, vstd::slice::slice_subrange(ecs, pos, next));
                next
            },
            Geom32::MultiPoint(pts) => {
                self.push_multi_point(pts.as_slice());
                pos
            },
            Geom32::MultiLineString(lines) => {
                self.push_multi_linestring(lines.as_slice());
                pos
            },
            Geom32::MultiPolygon(ps) => {
                assert(polygon_count(*geom) == ps@.len());
                let next = if tri { pos + ps.len() } else { pos };
                proof { lemma_earcuts_valid_subrange(ecs@, pos as int, next as int); }
                self.push_multi_polygon(ps.as_slice(), vstd::slice::slice_subrange(ecs, pos, next));
                next
            },
            Geom32::GeometryCollection(gs) => {
                proof {
                    assert(decreases_to!(*geom => (*geom)->GeometryCollection_0));
                    assert((*geom)->GeometryCollection_0 == *gs);
                    assert(decreases_to!(*gs => gs@));
                    lemma_polygon_count_mono(gs@, 0, gs@.len() as int);
                }
                self.push_all_at(gs.as_slice(), ecs, pos)
            },
        }
    }

    /// Appends each geometry of `gs` in order (see [`Self::push_geom`]),
    /// taking triangulations from `ecs[pos..]`; returns the position after
    /// the ones used.
    fn push_all_at(&mut self, gs: &[Geom32], ecs: &[EarcutRaw], pos: usize) -> (next: usize)
        requires
            earcuts_valid(ecs@),
            pos + prefix_earcuts(old(self)@.triangles is Some, gs@, gs@.len() as int)
                <= ecs@.len(),
            push_all_spec(
                old(self)@,
                gs@,
                ecs@.subrange(
                    pos as int,
                    pos + prefix_earcuts(old(self)@.triangles is Some, gs@, gs@.len() as int),
                ),
            ) is Some,
        ensures
            next == pos + prefix_earcuts(old(self)@.triangles is Some, gs@, gs@.len() as int),
            final(self)@ == push_all_spec(
                old(self)@,
                gs@,
                ecs@.subrange(pos as int, next as int),
            ).unwrap(),
        decreases gs@,
    {
        let ghost m0 = self@;
        let tri = self.triangles.is_some();
        let ghost total = ecs@.subrange(pos as int, pos + prefix_earcuts(tri, gs@, gs@.len() as int));
        let n = gs.len();
        let mut cur = pos;
        let mut i: usize = 0;
        proof {
            lemma_polygon_count_mono(gs@, 0, n as int);
            assert(gs@.take(0) =~= Seq::<Geom32>::empty());
            assert(ecs@.subrange(pos as int, pos as int) =~= Seq::<EarcutRaw>::empty());
        }
        while i < n
            invariant
                0 <= i <= n,
                n == gs@.len(),
                tri == (m0.triangles is Some),
                tri == (self@.triangles is Some),
                earcuts_valid(ecs@),
                total == ecs@.subrange(pos as int, pos + prefix_earcuts(tri, gs@, n as int)),
                pos + prefix_earcuts(tri, gs@, n as int) <= ecs@.len(),
                push_all_spec(m0, gs@, total) is Some,
                cur == pos + prefix_earcuts(tri, gs@, i as int),
                push_all_spec(m0, gs@.take(i as int), ecs@.subrange(pos as int, cur as int))
                    == Some(self@),
            decreases n - i,
        {
            proof {
                lemma_polygon_count_step(gs@, i as int);
                lemma_polygon_count_mono(gs@, i + 1, n as int);
                lemma_push_all_prefix(m0, gs@, total, i + 1);
                let t1 = gs@.take(i + 1);
                assert(t1.subrange(0, i as int) =~= gs@.take(i as int));
                assert(t1[i as int] == gs@[i as int]);
                let k = prefix_earcuts(tri, gs@, i as int);
                let e1 = total.take(prefix_earcuts(tri, gs@, i + 1));
                assert(e1 =~= ecs@.subrange(pos as int, pos + prefix_earcuts(tri, gs@, i + 1)));
                assert(e1.take(k) =~= ecs@.subrange(pos as int, cur as int));
                assert(e1.skip(k) =~= ecs@.subrange(
                    cur as int,
                    cur + earcuts_needed(tri, gs@[i as int]),
                ));
                assert(decreases_to!(gs@ => gs@[i as int]));
            }
            let next = self.push_geom_at(&gs[i], ecs, cur);
            proof {
                lemma_push_keeps_tessellation(
                    push_all_spec(m0, gs@.take(i as int), ecs@.subrange(pos as int, cur as int)).unwrap(),
                    gs@[i as int],
                    ecs@.subrange(cur as int, next as int),
                );
            }
            cur = next;
            i = i + 1;
        }
        proof {
            assert(gs@.take(n as int) =~= gs@);
        }
        cur
    }

    /// Appends a geometry as one feature (the members of a geometry collection
    /// as one feature each), filling the offset arrays that are present and
    /// creating those the geometry needs. When tessellating, `earcuts` holds
    /// the triangulation of each polygon of `geom`, in order (three corner
    /// indices per triangle, each below its vertex count); otherwise it is
    /// empty.
    pub fn push_geom(&mut self, geom: &Geom32, earcuts: &[EarcutRaw])
        requires
            earcuts_valid(earcuts@),
            earcuts@.len() == earcuts_needed(old(self)@.triangles is Some, *geom),
            push_geom_spec(old(self)@, *geom, earcuts@) is Some,
        ensures
            final(self)@ == push_geom_spec(old(self)@, *geom, earcuts@).unwrap(),
    {
        assert(earcuts@.subrange(0, earcuts@.len() as int) =~= earcuts@);
        self.push_geom_at(geom, earcuts, 0);
    }

    /// Builds a collection from row-level geometries.
    ///
    /// The top-level geometries are scanned first to decide which offset
    /// arrays are needed; those start as `[0]`, so that every feature adds an
    /// entry to each of them. With `tessellate`, polygons are tessellated and
    /// `earcuts` holds the triangulation of every polygon of `geoms`, in order.
    pub fn from_geoms(geoms: &[Geom32], tessellate: bool, earcuts: &[EarcutRaw]) -> (g:
        GeometryValues)
        requires
            earcuts_valid(earcuts@),
            earcuts@.len() == if tessellate {
                polygon_count_all(geoms@)
            } else {
                0
            },
            from_geoms_spec(geoms@, tessellate, earcuts@) is Some,
        ensures
            g@ == from_geoms_spec(geoms@, tessellate, earcuts@).unwrap(),
    {
        let ghost gs = geoms@;
        let mut has_multi = false;
        let mut has_line_or_poly = false;
        let mut has_polygon = false;
        let n = geoms.len();
        let mut i: usize = 0;
        while i < n
            invariant
                0 <= i <= n,
                n == gs.len(),
                gs == geoms@,
                has_multi == any_multi(gs.take(i as int)),
                has_line_or_poly == any_line_or_poly(gs.take(i as int)),
                has_polygon == any_polygonal(gs.take(i as int)),
            decreases n - i,
        {
            let g = &geoms[i];
            match g {
                Geom32::MultiPoint(_) | Geom32::MultiLineString(_) | Geom32::MultiPolygon(_) => {
                    has_multi = true;
                    has_line_or_poly = true;
                    if matches!(g, Geom32::MultiPolygon(_)) {
                        has_polygon = true;
                    }
                },
                Geom32::LineString(_) | Geom32::Line(_) => {
                    has_line_or_poly = true;
                },
                Geom32::Polygon(_) | Geom32::Triangle(_) | Geom32::Rect(_) => {
                    has_line_or_poly = true;
                    has_polygon = true;
                },
                _ => {},
            }
            proof {
                lemma_any_step(gs, i as int);
            }
            i = i + 1;
        }
        assert(gs.take(n as int) =~= gs);
        let mut gv = if tessellate {
            GeometryValues::new_tessellated()
        } else {
            GeometryValues::default()
        };
        if has_multi {
            let mut v: Vec<u32> = Vec::new();
            init_offsets(&mut v);
            gv.geometry_offsets = Some(v);
        }
        if has_line_or_poly {
            let mut v: Vec<u32> = Vec::new();
            init_offsets(&mut v);
            gv.part_offsets = Some(v);
        }
        if has_polygon {
            let mut v: Vec<u32> = Vec::new();
            init_offsets(&mut v);
            gv.ring_offsets = Some(v);
        }
        assert(gv@.vector_types =~= initial_model(gs, tessellate).vector_types);
        assert(gv@.triangles == initial_model(gs, tessellate).triangles);
        assert(gv@.geometry_offsets == initial_model(gs, tessellate).geometry_offsets);
        assert(gv@ == initial_model(gs, tessellate));
        proof {
            lemma_polygon_count_mono(gs, 0, n as int);
        }
        assert(earcuts@.subrange(0, earcuts@.len() as int) =~= earcuts@);
        gv.push_all_at(geoms, earcuts, 0);
        gv
    }

    /// This collection with `geom` appended (see [`Self::push_geom`]).
    pub fn with_geom(self, geom: &Geom32, earcuts: &[EarcutRaw]) -> (g: GeometryValues)
        requires
            earcuts_valid(earcuts@),
            earcuts@.len() == earcuts_needed(self@.triangles is Some, *geom),
            push_geom_spec(self@, *geom, earcuts@) is Some,
        ensures
            g@ == push_geom_spec(self@, *geom, earcuts@).unwrap(),
    {
        let mut g = self;
        g.push_geom(geom, earcuts);
        g
    }
}

} // verus!
