//! The flat coordinates + meta wire format of row-oriented geometry input.
//!
//! `meta` holds, per feature, a type tag followed by its structure:
//! point `0`; line string `1, n`; polygon `2, r, len_1, ..., len_r`;
//! multi-point `3, n`; multi-line-string `4, k, len_1, ..., len_k`;
//! multi-polygon `5, p` then for each polygon `r, len_1, ..., len_r`.
//! `coords` holds all coordinates flat, `x0, y0, x1, y1, ...`, in order.
use vstd::prelude::*;

use crate::geom::{closed_ring, Coord32, Geom32, LineString32, Polygon32};
use crate::model::{lines_coords, polygon_rings, polygons_rings};
use crate::text::{append_number, decimal};

verus! {

/// Type tag of a point.
pub const META_POINT: u32 = 0;
/// Type tag of a line string.
pub const META_LINESTRING: u32 = 1;
/// Type tag of a polygon.
pub const META_POLYGON: u32 = 2;
/// Type tag of a multi-point.
pub const META_MULTIPOINT: u32 = 3;
/// Type tag of a multi-line-string.
pub const META_MULTILINESTRING: u32 = 4;
/// Type tag of a multi-polygon.
pub const META_MULTIPOLYGON: u32 = 5;

/// Why flat geometry input is rejected.
#[derive(Debug, Clone, Copy, PartialEq, Eq, Structural)]
pub enum MetaError {
    /// A count was expected past the end of `meta`.
    UnexpectedEnd,
    /// A meta range end does not fit in `usize`.
    Overflow,
    /// A meta range ends past the end of `meta`.
    MetaTooShort { need: usize, have: usize },
    /// A coordinate pair was expected past the end of `coords`.
    CoordIndex { need: usize, have: usize },
    /// `needed` coordinate values from index `from` run past the end of `coords`.
    CoordValues { needed: u64, from: usize, have: usize },
    /// A polygon was given no rings.
    ZeroRings,
    /// An unknown type tag.
    InvalidType(u32),
    /// The features used fewer coordinates than given.
    Unconsumed { used: usize, total: usize },
}

/// The text describing an error.
pub open spec fn meta_error_text(e: MetaError) -> Seq<char> {
    match e {
        MetaError::UnexpectedEnd => "unexpected end of meta array"@,
        MetaError::Overflow => "meta overflow"@,
        MetaError::MetaTooShort { need, have } => "meta too short: need "@ + decimal(need as nat)
            + " entries, have "@ + decimal(have as nat),
        MetaError::CoordIndex { need, have } => "coords too short: need index "@ + decimal(
            need as nat,
        ) + ", have "@ + decimal(have as nat),
        MetaError::CoordValues { needed, from, have } => "coords too short: need "@ + decimal(
            needed as nat,
        ) + " values from index "@ + decimal(from as nat) + ", have "@ + decimal(have as nat),
        MetaError::ZeroRings => "polygon with zero rings"@,
        MetaError::InvalidType(t) => "invalid geometry type: "@ + decimal(t as nat),
        MetaError::Unconsumed { used, total } => "unconsumed coords: used "@ + decimal(used as nat)
            + ", total "@ + decimal(total as nat),
    }
}

impl MetaError {
    /// A human-readable description of the error.
    pub fn message(&self) -> (s: String)
        ensures
            s@ == meta_error_text(*self),
    {
        match self {
            MetaError::UnexpectedEnd => String::from_str("unexpected end of meta array"),
            MetaError::Overflow => String::from_str("meta overflow"),
            MetaError::MetaTooShort { need, have } => {
                let mut s = String::from_str("meta too short: need ");
                append_number(&mut s, *need as u64);
                s.append(" entries, have ");
                append_number(&mut s, *have as u64);
                s
            },
            MetaError::CoordIndex { need, have } => {
                let mut s = String::from_str("coords too short: need index ");
                append_number(&mut s, *need as u64);
                s.append(", have ");
                append_number(&mut s, *have as u64);
                s
            },
            MetaError::CoordValues { needed, from, have } => {
                let mut s = String::from_str("coords too short: need ");
                append_number(&mut s, *needed);
                s.append(" values from index ");
                append_number(&mut s, *from as u64);
                s.append(", have ");
                append_number(&mut s, *have as u64);
                s
            },
            MetaError::ZeroRings => String::from_str("polygon with zero rings"),
            MetaError::InvalidType(t) => {
                let mut s = String::from_str("invalid geometry type: ");
                append_number(&mut s, *t as u64);
                s
            },
            MetaError::Unconsumed { used, total } => {
                let mut s = String::from_str("unconsumed coords: used ");
                append_number(&mut s, *used as u64);
                s.append(", total ");
                append_number(&mut s, *total as u64);
                s
            },
        }
    }
}

/// The shape of a geometry as the flat format describes it; polygon rings
/// are closed.
pub enum GeomShape {
    Point(Coord32),
    LineString(Seq<Coord32>),
    Polygon(Seq<Seq<Coord32>>),
    MultiPoint(Seq<Coord32>),
    MultiLineString(Seq<Seq<Coord32>>),
    MultiPolygon(Seq<Seq<Seq<Coord32>>>),
    Other,
}

/// The shape of a geometry.
pub open spec fn shape_of(g: Geom32) -> GeomShape {
    match g {
        Geom32::Point(c) => GeomShape::Point(c),
        Geom32::LineString(ls) => GeomShape::LineString(ls.0@),
        Geom32::Polygon(p) => GeomShape::Polygon(polygon_rings(p)),
        Geom32::MultiPoint(v) => GeomShape::MultiPoint(v@),
        Geom32::MultiLineString(v) => GeomShape::MultiLineString(lines_coords(v@)),
        Geom32::MultiPolygon(v) => GeomShape::MultiPolygon(polygons_rings(v@)),
        _ => GeomShape::Other,
    }
}

/// The next meta entry and the position after it.
pub open spec fn take_meta_s(meta: Seq<u32>, mi: int) -> Result<(u32, int), MetaError> {
    if mi >= meta.len() {
        Err(MetaError::UnexpectedEnd)
    } else {
        Ok((meta[mi], mi + 1))
    }
}

/// The next `n` meta entries and the position after them.
pub open spec fn take_slice_s(meta: Seq<u32>, mi: int, n: int) -> Result<(Seq<u32>, int), MetaError> {
    if mi + n > usize::MAX {
        Err(MetaError::Overflow)
    } else if mi + n > meta.len() {
        Err(MetaError::MetaTooShort { need: (mi + n) as usize, have: meta.len() as usize })
    } else {
        Ok((meta.subrange(mi, mi + n), mi + n))
    }
}

/// The coordinate pair at `ci` and the position after it.
pub open spec fn read_coord_s(coords: Seq<i32>, ci: int) -> Result<(Coord32, int), MetaError> {
    if ci + 1 >= coords.len() {
        Err(MetaError::CoordIndex { need: (ci + 1) as usize, have: coords.len() as usize })
    } else {
        Ok((Coord32 { x: coords[ci], y: coords[ci + 1] }, ci + 2))
    }
}

/// The `n` coordinate pairs from `ci`.
pub open spec fn coords_at(coords: Seq<i32>, ci: int, n: nat) -> Seq<Coord32> {
    Seq::new(n, |i: int| Coord32 { x: coords[ci + 2 * i], y: coords[ci + 2 * i + 1] })
}

/// `n` coordinate pairs read at once from `ci`, and the position after them.
pub open spec fn read_coords_s(coords: Seq<i32>, ci: int, n: nat) -> Result<
    (Seq<Coord32>, int),
    MetaError,
> {
    if ci + 2 * n > coords.len() {
        Err(
            MetaError::CoordValues {
                needed: (2 * n) as u64,
                from: ci as usize,
                have: coords.len() as usize,
            },
        )
    } else {
        Ok((coords_at(coords, ci, n), ci + 2 * n))
    }
}

/// `n` coordinate pairs read one by one from `ci`.
pub open spec fn read_points_s(coords: Seq<i32>, ci: int, n: nat) -> Result<
    (Seq<Coord32>, int),
    MetaError,
>
    decreases n,
{
    if n == 0 {
        Ok((Seq::empty(), ci))
    } else {
        match read_points_s(coords, ci, (n - 1) as nat) {
            Ok((ps, c)) => match read_coord_s(coords, c) {
                Ok((p, c2)) => Ok((ps.push(p), c2)),
                Err(e) => Err(e),
            },
            Err(e) => Err(e),
        }
    }
}

/// One line per length in `lens`, read in order from `ci`.
pub open spec fn read_lines_s(coords: Seq<i32>, ci: int, lens: Seq<u32>) -> Result<
    (Seq<Seq<Coord32>>, int),
    MetaError,
>
    decreases lens.len(),
{
    if lens.len() == 0 {
        Ok((Seq::empty(), ci))
    } else {
        match read_lines_s(coords, ci, lens.drop_last()) {
            Ok((ls, c)) => match read_coords_s(coords, c, lens.last() as nat) {
                Ok((l, c2)) => Ok((ls.push(l), c2)),
                Err(e) => Err(e),
            },
            Err(e) => Err(e),
        }
    }
}

/// The rings of a polygon with ring lengths `ring_lens`, closed as a polygon
/// constructor closes them.
pub open spec fn read_polygon_s(coords: Seq<i32>, ci: int, ring_lens: Seq<u32>) -> Result<
    (Seq<Seq<Coord32>>, int),
    MetaError,
> {
    if ring_lens.len() == 0 {
        Err(MetaError::ZeroRings)
    } else {
        match read_lines_s(coords, ci, ring_lens) {
            Ok((rings, c)) => Ok((rings.map_values(|r: Seq<Coord32>| closed_ring(r)), c)),
            Err(e) => Err(e),
        }
    }
}

/// One polygon per ring-length list, read in order from `ci`.
pub open spec fn read_polygons_s(coords: Seq<i32>, ci: int, slices: Seq<Seq<u32>>) -> Result<
    (Seq<Seq<Seq<Coord32>>>, int),
    MetaError,
>
    decreases slices.len(),
{
    if slices.len() == 0 {
        Ok((Seq::empty(), ci))
    } else {
        match read_polygons_s(coords, ci, slices.drop_last()) {
            Ok((ps, c)) => match read_polygon_s(coords, c, slices.last()) {
                Ok((p, c2)) => Ok((ps.push(p), c2)),
                Err(e) => Err(e),
            },
            Err(e) => Err(e),
        }
    }
}

/// The ring-length lists of `count` polygons: for each, a ring count and
/// that many lengths.
pub open spec fn ring_slices_s(meta: Seq<u32>, mi: int, count: nat) -> Result<
    (Seq<Seq<u32>>, int),
    MetaError,
>
    decreases count,
{
    if count == 0 {
        Ok((Seq::empty(), mi))
    } else {
        match ring_slices_s(meta, mi, (count - 1) as nat) {
            Ok((ss, m)) => match take_meta_s(meta, m) {
                Ok((r, m2)) => match take_slice_s(meta, m2, r as int) {
                    Ok((s, m3)) => Ok((ss.push(s), m3)),
                    Err(e) => Err(e),
                },
                Err(e) => Err(e),
            },
            Err(e) => Err(e),
        }
    }
}

/// One feature starting at `meta[mi]`: its shape and the coordinate and
/// meta positions after it.
pub open spec fn parse_one_s(coords: Seq<i32>, ci: int, meta: Seq<u32>, mi: int) -> Result<
    (GeomShape, int, int),
    MetaError,
> {
    let t = meta[mi];
    let m1 = mi + 1;
    if t == META_POINT {
        match read_coord_s(coords, ci) {
            Ok((c, c2)) => Ok((GeomShape::Point(c), c2, m1)),
            Err(e) => Err(e),
        }
    } else if t == META_LINESTRING {
        match take_meta_s(meta, m1) {
            Ok((n, m2)) => match read_coords_s(coords, ci, n as nat) {
                Ok((cs, c2)) => Ok((GeomShape::LineString(cs), c2, m2)),
                Err(e) => Err(e),
            },
            Err(e) => Err(e),
        }
    } else if t == META_POLYGON {
        match take_meta_s(meta, m1) {
            Ok((r, m2)) => match take_slice_s(meta, m2, r as int) {
                Ok((lens, m3)) => match read_polygon_s(coords, ci, lens) {
                    Ok((rings, c2)) => Ok((GeomShape::Polygon(rings), c2, m3)),
                    Err(e) => Err(e),
                },
                Err(e) => Err(e),
            },
            Err(e) => Err(e),
        }
    } else if t == META_MULTIPOINT {
        match take_meta_s(meta, m1) {
            Ok((n, m2)) => match read_points_s(coords, ci, n as nat) {
                Ok((ps, c2)) => Ok((GeomShape::MultiPoint(ps), c2, m2)),
                Err(e) => Err(e),
            },
            Err(e) => Err(e),
        }
    } else if t == META_MULTILINESTRING {
        match take_meta_s(meta, m1) {
            Ok((n, m2)) => match take_slice_s(meta, m2, n as int) {
                Ok((lens, m3)) => match read_lines_s(coords, ci, lens) {
                    Ok((ls, c2)) => Ok((GeomShape::MultiLineString(ls), c2, m3)),
                    Err(e) => Err(e),
                },
                Err(e) => Err(e),
            },
            Err(e) => Err(e),
        }
    } else if t == META_MULTIPOLYGON {
        match take_meta_s(meta, m1) {
            Ok((p, m2)) => match ring_slices_s(meta, m2, p as nat) {
                Ok((slices, m3)) => match read_polygons_s(coords, ci, slices) {
                    Ok((ps, c2)) => Ok((GeomShape::MultiPolygon(ps), c2, m3)),
                    Err(e) => Err(e),
                },
                Err(e) => Err(e),
            },
            Err(e) => Err(e),
        }
    } else {
        Err(MetaError::InvalidType(t))
    }
}

proof fn lemma_read_points(coords: Seq<i32>, ci: int, n: nat)
    requires
        0 <= ci <= coords.len(),
    ensures
        read_points_s(coords, ci, n) matches Ok((ps, c)) ==> ps.len() == n && ci <= c
            <= coords.len(),
    decreases n,
{
    if n > 0 {
        lemma_read_points(coords, ci, (n - 1) as nat);
    }
}

proof fn lemma_read_lines(coords: Seq<i32>, ci: int, lens: Seq<u32>)
    requires
        0 <= ci <= coords.len(),
    ensures
        read_lines_s(coords, ci, lens) matches Ok((ls, c)) ==> ls.len() == lens.len() && ci <= c
            <= coords.len(),
    decreases lens.len(),
{
    if lens.len() > 0 {
        lemma_read_lines(coords, ci, lens.drop_last());
    }
}

proof fn lemma_read_polygons(coords: Seq<i32>, ci: int, slices: Seq<Seq<u32>>)
    requires
        0 <= ci <= coords.len(),
    ensures
        read_polygons_s(coords, ci, slices) matches Ok((ps, c)) ==> ps.len() == slices.len() && ci
            <= c <= coords.len(),
    decreases slices.len(),
{
    if slices.len() > 0 {
        lemma_read_polygons(coords, ci, slices.drop_last());
        if let Ok((ps, c)) = read_polygons_s(coords, ci, slices.drop_last()) {
            lemma_read_lines(coords, c, slices.last());
        }
    }
}

proof fn lemma_ring_slices(meta: Seq<u32>, mi: int, count: nat)
    requires
        0 <= mi <= meta.len(),
    ensures
        ring_slices_s(meta, mi, count) matches Ok((ss, m)) ==> ss.len() == count && mi <= m
            <= meta.len(),
    decreases count,
{
    if count > 0 {
        lemma_ring_slices(meta, mi, (count - 1) as nat);
    }
}

/// A parsed feature moves the meta position forward and keeps both
/// positions in bounds.
pub proof fn lemma_parse_one(coords: Seq<i32>, ci: int, meta: Seq<u32>, mi: int)
    requires
        0 <= ci <= coords.len(),
        0 <= mi < meta.len(),
    ensures
        parse_one_s(coords, ci, meta, mi) matches Ok((g, c2, m2)) ==> ci <= c2 <= coords.len()
            && mi < m2 <= meta.len(),
{
    let t = meta[mi];
    if t == META_POLYGON {
        if let Ok((r, m2)) = take_meta_s(meta, mi + 1) {
            if let Ok((lens, m3)) = take_slice_s(meta, m2, r as int) {
                lemma_read_lines(coords, ci, lens);
            }
        }
    } else if t == META_MULTIPOINT {
        if let Ok((n, m2)) = take_meta_s(meta, mi + 1) {
            lemma_read_points(coords, ci, n as nat);
        }
    } else if t == META_MULTILINESTRING {
        if let Ok((n, m2)) = take_meta_s(meta, mi + 1) {
            if let Ok((lens, m3)) = take_slice_s(meta, m2, n as int) {
                lemma_read_lines(coords, ci, lens);
            }
        }
    } else if t == META_MULTIPOLYGON {
        if let Ok((p, m2)) = take_meta_s(meta, mi + 1) {
            lemma_ring_slices(meta, m2, p as nat);
            if let Ok((slices, m3)) = ring_slices_s(meta, m2, p as nat) {
                lemma_read_polygons(coords, ci, slices);
            }
        }
    }
}

/// The features from positions `ci` and `mi` on: parsed one after another
/// until `meta` is used up, which must also use up `coords`.
pub open spec fn parse_from(coords: Seq<i32>, meta: Seq<u32>, ci: int, mi: int) -> Result<
    Seq<GeomShape>,
    MetaError,
>
    decreases meta.len() - mi,
{
    if mi >= meta.len() {
        if ci != coords.len() {
            Err(MetaError::Unconsumed { used: ci as usize, total: coords.len() as usize })
        } else {
            Ok(Seq::empty())
        }
    } else if !(0 <= mi && 0 <= ci <= coords.len()) {
        Err(MetaError::UnexpectedEnd)
    } else {
        proof {
            lemma_parse_one(coords, ci, meta, mi);
        }
        match parse_one_s(coords, ci, meta, mi) {
            Ok((g, c2, m2)) => match parse_from(coords, meta, c2, m2) {
                Ok(rest) => Ok(seq![g] + rest),
                Err(e) => Err(e),
            },
            Err(e) => Err(e),
        }
    }
}

/// Parsing all of the input.
pub open spec fn parse_meta_spec(coords: Seq<i32>, meta: Seq<u32>) -> Result<
    Seq<GeomShape>,
    MetaError,
> {
    parse_from(coords, meta, 0, 0)
}

proof fn lemma_read_lines_err(coords: Seq<i32>, ci: int, lens: Seq<u32>, k: int)
    requires
        0 <= k <= lens.len(),
        read_lines_s(coords, ci, lens.take(k)) is Err,
    ensures
        read_lines_s(coords, ci, lens) == read_lines_s(coords, ci, lens.take(k)),
    decreases lens.len() - k,
{
    if k == lens.len() {
        assert(lens.take(k) =~= lens);
    } else {
        assert(lens.take(k + 1).drop_last() =~= lens.take(k));
        lemma_read_lines_err(coords, ci, lens, k + 1);
    }
}

/// Reads the next meta entry.
fn take_meta(meta: &[u32], mi: &mut usize) -> (r: Result<u32, MetaError>)
    ensures
        match take_meta_s(meta@, *old(mi) as int) {
            Ok((v, m2)) => r == Ok::<u32, MetaError>(v) && *final(mi) == m2,
            Err(e) => r == Err::<u32, MetaError>(e),
        },
{
    if *mi >= meta.len() {
        return Err(MetaError::UnexpectedEnd);
    }
    let v = meta[*mi];
    *mi = *mi + 1;
    Ok(v)
}

/// Reads the next `n` meta entries, returning the position of the first one.
fn take_meta_slice(meta: &[u32], mi: &mut usize, n: usize) -> (r: Result<usize, MetaError>)
    ensures
        match take_slice_s(meta@, *old(mi) as int, n as int) {
            Ok((s, m2)) => r == Ok::<usize, MetaError>(*old(mi)) && *final(mi) == m2
                && meta@.subrange(*old(mi) as int, m2) == s,
            Err(e) => r == Err::<usize, MetaError>(e),
        },
{
    let end = match mi.checked_add(n) {
        Some(end) => end,
        None => {
            return Err(MetaError::Overflow);
        },
    };
    if end > meta.len() {
        return Err(MetaError::MetaTooShort { need: end, have: meta.len() });
    }
    let start = *mi;
    *mi = end;
    Ok(start)
}

/// Reads one coordinate pair.
fn read_coord(coords: &[i32], ci: &mut usize) -> (r: Result<Coord32, MetaError>)
    requires
        *old(ci) <= coords@.len(),
        coords@.len() < usize::MAX,
    ensures
        match read_coord_s(coords@, *old(ci) as int) {
            Ok((c, c2)) => r == Ok::<Coord32, MetaError>(c) && *final(ci) == c2,
            Err(e) => r == Err::<Coord32, MetaError>(e),
        },
{
    let len = coords.len();
    if *ci >= len || *ci + 1 >= len {
        return Err(MetaError::CoordIndex { need: *ci + 1, have: len });
    }
    let x = coords[*ci];
    let y = coords[*ci + 1];
    *ci = *ci + 2;
    Ok(Coord32 { x, y })
}

/// Reads `n` coordinate pairs at once.
fn read_coords(coords: &[i32], ci: &mut usize, n: u32) -> (r: Result<Vec<Coord32>, MetaError>)
    requires
        *old(ci) <= coords@.len(),
    ensures
        match read_coords_s(coords@, *old(ci) as int, n as nat) {
            Ok((cs, c2)) => r matches Ok(v) && v@ == cs && *final(ci) == c2,
            Err(e) => r == Err::<Vec<Coord32>, MetaError>(e),
        },
{
    let needed: u64 = n as u64 * 2;
    let len = coords.len();
    if needed > (len - *ci) as u64 {
        return Err(MetaError::CoordValues { needed, from: *ci, have: len });
    }
    let start = *ci;
    let mut result: Vec<Coord32> = Vec::new();
    let mut k: u32 = 0;
    while k < n
        invariant
            0 <= k <= n,
            len == coords@.len(),
            start + 2 * n <= len,
            *ci == start + 2 * k,
            result@ =~= coords_at(coords@, start as int, k as nat),
        decreases n - k,
    {
        let x = coords[*ci];
        let y = coords[*ci + 1];
        *ci = *ci + 2;
        result.push(Coord32 { x, y });
        k = k + 1;
    }
    Ok(result)
}

/// Reads a line string of `n` coordinate pairs.
fn read_linestring(coords: &[i32], ci: &mut usize, n: u32) -> (r: Result<LineString32, MetaError>)
    requires
        *old(ci) <= coords@.len(),
    ensures
        match read_coords_s(coords@, *old(ci) as int, n as nat) {
            Ok((cs, c2)) => r matches Ok(l) && l.0@ == cs && *final(ci) == c2,
            Err(e) => r == Err::<LineString32, MetaError>(e),
        },
{
    match read_coords(coords, ci, n) {
        Ok(v) => Ok(LineString32(v)),
        Err(e) => Err(e),
    }
}

/// Reads one line string per length in `meta[start..start + count]`.
fn read_linestrings(coords: &[i32], ci: &mut usize, meta: &[u32], start: usize, count: usize) -> (r:
    Result<Vec<LineString32>, MetaError>)
    requires
        *old(ci) <= coords@.len(),
        start + count <= meta@.len(),
    ensures
        match read_lines_s(coords@, *old(ci) as int, meta@.subrange(start as int, start + count)) {
            Ok((ls, c2)) => r matches Ok(v) && lines_coords(v@) == ls && *final(ci) == c2,
            Err(e) => r == Err::<Vec<LineString32>, MetaError>(e),
        },
{
    let ghost c0 = *ci;
    let ghost lens = meta@.subrange(start as int, start + count);
    let mlen = meta.len();
    let mut lines: Vec<LineString32> = Vec::new();
    let mut k: usize = 0;
    assert(lens.take(0) =~= Seq::<u32>::empty());
    assert(lines_coords(lines@) =~= Seq::<Seq<Coord32>>::empty());
    while k < count
        invariant
            0 <= k <= count,
            mlen == meta@.len(),
            start + count <= meta@.len(),
            lens == meta@.subrange(start as int, start + count),
            c0 == *old(ci),
            c0 <= coords@.len(),
            read_lines_s(coords@, c0 as int, lens.take(k as int)) == Ok::<
                (Seq<Seq<Coord32>>, int),
                MetaError,
            >((lines_coords(lines@), *ci as int)),
            *ci <= coords@.len(),
        decreases count - k,
    {
        proof {
            assert(lens.take(k + 1).drop_last() =~= lens.take(k as int));
            assert(lens.take(k + 1).last() == meta@[start + k]);
        }
        let n = meta[start + k];
        let ghost c_before = *ci;
        match read_linestring(coords, ci, n) {
            Ok(l) => {
                let ghost before = lines@;
                lines.push(l);
                assert(lines_coords(lines@) =~= lines_coords(before).push(l.0@));
                proof {
                    lemma_read_lines(coords@, c0 as int, lens.take(k + 1));
                }
            },
            Err(e) => {
                proof {
                    assert(read_coords_s(coords@, c_before as int, n as nat) == Err::<
                        (Seq<Coord32>, int),
                        MetaError,
                    >(e));
                    assert(read_lines_s(coords@, c0 as int, lens.take(k + 1)) == Err::<
                        (Seq<Seq<Coord32>>, int),
                        MetaError,
                    >(e));
                    lemma_read_lines_err(coords@, c0 as int, lens, k + 1);
                    assert(read_lines_s(coords@, c0 as int, lens) == Err::<
                        (Seq<Seq<Coord32>>, int),
                        MetaError,
                    >(e));
                }
                return Err(e);
            },
        }
        k = k + 1;
    }
    assert(lens.take(count as int) =~= lens);
    Ok(lines)
}

proof fn lemma_read_points_err(coords: Seq<i32>, ci: int, n: nat, k: nat)
    requires
        k <= n,
        read_points_s(coords, ci, k) is Err,
    ensures
        read_points_s(coords, ci, n) == read_points_s(coords, ci, k),
    decreases n - k,
{
    if k < n {
        lemma_read_points_err(coords, ci, n, k + 1);
    }
}

proof fn lemma_read_polygons_err(coords: Seq<i32>, ci: int, slices: Seq<Seq<u32>>, k: int)
    requires
        0 <= k <= slices.len(),
        read_polygons_s(coords, ci, slices.take(k)) is Err,
    ensures
        read_polygons_s(coords, ci, slices) == read_polygons_s(coords, ci, slices.take(k)),
    decreases slices.len() - k,
{
    if k == slices.len() {
        assert(slices.take(k) =~= slices);
    } else {
        assert(slices.take(k + 1).drop_last() =~= slices.take(k));
        lemma_read_polygons_err(coords, ci, slices, k + 1);
    }
}

proof fn lemma_ring_slices_err(meta: Seq<u32>, mi: int, n: nat, k: nat)
    requires
        k <= n,
        ring_slices_s(meta, mi, k) is Err,
    ensures
        ring_slices_s(meta, mi, n) == ring_slices_s(meta, mi, k),
    decreases n - k,
{
    if k < n {
        lemma_ring_slices_err(meta, mi, n, k + 1);
    }
}

/// Reads `n` coordinate pairs one by one.
fn read_points(coords: &[i32], ci: &mut usize, n: u32) -> (r: Result<Vec<Coord32>, MetaError>)
    requires
        *old(ci) <= coords@.len(),
        coords@.len() < usize::MAX,
    ensures
        match read_points_s(coords@, *old(ci) as int, n as nat) {
            Ok((ps, c2)) => r matches Ok(v) && v@ == ps && *final(ci) == c2,
            Err(e) => r == Err::<Vec<Coord32>, MetaError>(e),
        },
{
    let ghost c0 = *ci;
    let mut points: Vec<Coord32> = Vec::new();
    let mut k: u32 = 0;
    while k < n
        invariant
            0 <= k <= n,
            c0 == *old(ci),
            c0 <= coords@.len(),
            coords@.len() < usize::MAX,
            read_points_s(coords@, c0 as int, k as nat) == Ok::<(Seq<Coord32>, int), MetaError>(
                (points@, *ci as int),
            ),
            *ci <= coords@.len(),
        decreases n - k,
    {
        let ghost c_before = *ci;
        match read_coord(coords, ci) {
            Ok(p) => {
                points.push(p);
                proof {
                    lemma_read_points(coords@, c0 as int, (k + 1) as nat);
                }
            },
            Err(e) => {
                proof {
                    lemma_read_points_err(coords@, c0 as int, n as nat, (k + 1) as nat);
                }
                return Err(e);
            },
        }
        k = k + 1;
    }
    Ok(points)
}

/// Reads a polygon whose ring lengths are `meta[start..start + count]`,
/// closing its rings.
fn read_polygon(coords: &[i32], ci: &mut usize, meta: &[u32], start: usize, count: usize) -> (r:
    Result<Polygon32, MetaError>)
    requires
        *old(ci) <= coords@.len(),
        start + count <= meta@.len(),
    ensures
        match read_polygon_s(coords@, *old(ci) as int, meta@.subrange(start as int, start + count)) {
            Ok((rings, c2)) => r matches Ok(p) && polygon_rings(p) == rings && *final(ci) == c2,
            Err(e) => r == Err::<Polygon32, MetaError>(e),
        },
{
    if count == 0 {
        return Err(MetaError::ZeroRings);
    }
    let mut lines = match read_linestrings(coords, ci, meta, start, count) {
        Ok(v) => v,
        Err(e) => {
            return Err(e);
        },
    };
    let ghost all = lines@;
    proof {
        lemma_read_lines(coords@, *old(ci) as int, meta@.subrange(start as int, start + count));
    }
    let exterior = lines.remove(0);
    let p = Polygon32::new(exterior, lines);
    assert(polygon_rings(p) =~= lines_coords(all).map_values(|r: Seq<Coord32>| closed_ring(r)));
    Ok(p)
}

/// The meta ranges named by `(start, count)` pairs.
pub open spec fn slices_view(meta: Seq<u32>, v: Seq<(usize, usize)>) -> Seq<Seq<u32>> {
    Seq::new(v.len(), |i: int| meta.subrange(v[i].0 as int, v[i].0 + v[i].1))
}

/// All `(start, count)` pairs name ranges inside `meta`.
pub open spec fn slices_in(meta: Seq<u32>, v: Seq<(usize, usize)>) -> bool {
    forall|i: int| 0 <= i < v.len() ==> #[trigger] v[i].0 + v[i].1 <= meta.len()
}

/// Reads the ring-length lists of `count` polygons.
fn take_ring_slices(meta: &[u32], mi: &mut usize, count: u32) -> (r: Result<
    Vec<(usize, usize)>,
    MetaError,
>)
    requires
        *old(mi) <= meta@.len(),
    ensures
        match ring_slices_s(meta@, *old(mi) as int, count as nat) {
            Ok((ss, m2)) => r matches Ok(v) && slices_in(meta@, v@) && slices_view(meta@, v@) == ss
                && *final(mi) == m2,
            Err(e) => r == Err::<Vec<(usize, usize)>, MetaError>(e),
        },
{
    let ghost m0 = *mi;
    let mut slices: Vec<(usize, usize)> = Vec::new();
    let mut k: u32 = 0;
    assert(slices_view(meta@, slices@) =~= Seq::<Seq<u32>>::empty());
    while k < count
        invariant
            0 <= k <= count,
            m0 == *old(mi),
            m0 <= meta@.len(),
            *mi <= meta@.len(),
            slices_in(meta@, slices@),
            ring_slices_s(meta@, m0 as int, k as nat) == Ok::<(Seq<Seq<u32>>, int), MetaError>(
                (slices_view(meta@, slices@), *mi as int),
            ),
        decreases count - k,
    {
        let ghost m_before = *mi;
        let num_rings = match take_meta(meta, mi) {
            Ok(v) => v,
            Err(e) => {
                proof {
                    lemma_ring_slices_err(meta@, m0 as int, count as nat, (k + 1) as nat);
                }
                return Err(e);
            },
        };
        let start = match take_meta_slice(meta, mi, num_rings as usize) {
            Ok(st) => st,
            Err(e) => {
                proof {
                    lemma_ring_slices_err(meta@, m0 as int, count as nat, (k + 1) as nat);
                }
                return Err(e);
            },
        };
        let ghost before = slices@;
        slices.push((start, num_rings as usize));
        assert(slices_view(meta@, slices@) =~= slices_view(meta@, before).push(
            meta@.subrange(start as int, start + num_rings),
        ));
        k = k + 1;
    }
    Ok(slices)
}

/// Reads one polygon per ring-length list.
fn read_polygons(coords: &[i32], ci: &mut usize, meta: &[u32], slices: &Vec<(usize, usize)>) -> (r:
    Result<Vec<Polygon32>, MetaError>)
    requires
        *old(ci) <= coords@.len(),
        slices_in(meta@, slices@),
    ensures
        match read_polygons_s(coords@, *old(ci) as int, slices_view(meta@, slices@)) {
            Ok((ps, c2)) => r matches Ok(v) && polygons_rings(v@) == ps && *final(ci) == c2,
            Err(e) => r == Err::<Vec<Polygon32>, MetaError>(e),
        },
{
    let ghost c0 = *ci;
    let ghost ss = slices_view(meta@, slices@);
    let mut polys: Vec<Polygon32> = Vec::new();
    let n = slices.len();
    let mut k: usize = 0;
    assert(ss.take(0) =~= Seq::<Seq<u32>>::empty());
    assert(polygons_rings(polys@) =~= Seq::<Seq<Seq<Coord32>>>::empty());
    while k < n
        invariant
            0 <= k <= n,
            n == slices@.len(),
            ss == slices_view(meta@, slices@),
            slices_in(meta@, slices@),
            c0 == *old(ci),
            c0 <= coords@.len(),
            *ci <= coords@.len(),
            read_polygons_s(coords@, c0 as int, ss.take(k as int)) == Ok::<
                (Seq<Seq<Seq<Coord32>>>, int),
                MetaError,
            >((polygons_rings(polys@), *ci as int)),
        decreases n - k,
    {
        proof {
            assert(ss.take(k + 1).drop_last() =~= ss.take(k as int));
            assert(ss.take(k + 1).last() == ss[k as int]);
        }
        let (start, count) = slices[k];
        let ghost c_before = *ci;
        match read_polygon(coords, ci, meta, start, count) {
            Ok(p) => {
                let ghost before = polys@;
                polys.push(p);
                assert(polygons_rings(polys@) =~= polygons_rings(before).push(polygon_rings(p)));
                proof {
                    lemma_read_polygons(coords@, c0 as int, ss.take(k + 1));
                }
            },
            Err(e) => {
                proof {
                    lemma_read_polygons_err(coords@, c0 as int, ss, k + 1);
                }
                return Err(e);
            },
        }
        k = k + 1;
    }
    assert(ss.take(n as int) =~= ss);
    Ok(polys)
}


/// Parses the feature at `meta[mi]`, moving both positions past it.
fn parse_one(coords: &[i32], ci: &mut usize, meta: &[u32], mi: &mut usize) -> (r: Result<
    Geom32,
    MetaError,
>)
    requires
        *old(ci) <= coords@.len(),
        *old(mi) < meta@.len(),
        coords@.len() < usize::MAX,
    ensures
        match parse_one_s(coords@, *old(ci) as int, meta@, *old(mi) as int) {
            Ok((g, c2, m2)) => r matches Ok(x) && shape_of(x) == g && *final(ci) == c2
                && *final(mi) == m2,
            Err(e) => r == Err::<Geom32, MetaError>(e),
        },
{
    let t = meta[*mi];
    *mi = *mi + 1;
    if t == META_POINT {
        match read_coord(coords, ci) {
            Ok(c) => Ok(Geom32::Point(c)),
            Err(e) => Err(e),
        }
    } else if t == META_LINESTRING {
        let n = match take_meta(meta, mi) {
            Ok(n) => n,
            Err(e) => {
                return Err(e);
            },
        };
        match read_linestring(coords, ci, n) {
            Ok(l) => Ok(Geom32::LineString(l)),
            Err(e) => Err(e),
        }
    } else if t == META_POLYGON {
        let num_rings = match take_meta(meta, mi) {
            Ok(n) => n,
            Err(e) => {
                return Err(e);
            },
        };
        let start = match take_meta_slice(meta, mi, num_rings as usize) {
            Ok(st) => st,
            Err(e) => {
                return Err(e);
            },
        };
        match read_polygon(coords, ci, meta, start, num_rings as usize) {
            Ok(p) => Ok(Geom32::Polygon(p)),
            Err(e) => Err(e),
        }
    } else if t == META_MULTIPOINT {
        let n = match take_meta(meta, mi) {
            Ok(n) => n,
            Err(e) => {
                return Err(e);
            },
        };
        match read_points(coords, ci, n) {
            Ok(ps) => Ok(Geom32::MultiPoint(ps)),
            Err(e) => Err(e),
        }
    } else if t == META_MULTILINESTRING {
        let n = match take_meta(meta, mi) {
            Ok(n) => n,
            Err(e) => {
                return Err(e);
            },
        };
        let start = match take_meta_slice(meta, mi, n as usize) {
            Ok(st) => st,
            Err(e) => {
                return Err(e);
            },
        };
        match read_linestrings(coords, ci, meta, start, n as usize) {
            Ok(ls) => Ok(Geom32::MultiLineString(ls)),
            Err(e) => Err(e),
        }
    } else if t == META_MULTIPOLYGON {
        let num_polys = match take_meta(meta, mi) {
            Ok(n) => n,
            Err(e) => {
                return Err(e);
            },
        };
        let slices = match take_ring_slices(meta, mi, num_polys) {
            Ok(v) => v,
            Err(e) => {
                return Err(e);
            },
        };
        match read_polygons(coords, ci, meta, &slices) {
            Ok(ps) => Ok(Geom32::MultiPolygon(ps)),
            Err(e) => Err(e),
        }
    } else {
        Err(MetaError::InvalidType(t))
    }
}

/// Parses flat coordinates and meta entries into geometries, one per
/// feature: the result is exactly what [`parse_meta_spec`] describes, and
/// each error comes exactly on the inputs where the description fails with
/// it.
pub fn parse_meta_geometries(coords: &[i32], meta: &[u32]) -> (r: Result<Vec<Geom32>, MetaError>)
    requires
        coords@.len() < usize::MAX,
    ensures
        match parse_meta_spec(coords@, meta@) {
            Ok(shapes) => r matches Ok(v) && v@.map_values(|g: Geom32| shape_of(g)) == shapes,
            Err(e) => r == Err::<Vec<Geom32>, MetaError>(e),
        },
{
    let mut geoms: Vec<Geom32> = Vec::new();
    let mut ci: usize = 0;
    let mut mi: usize = 0;
    while mi < meta.len()
        invariant
            ci <= coords@.len(),
            mi <= meta@.len(),
            coords@.len() < usize::MAX,
            match parse_meta_spec(coords@, meta@) {
                Ok(shapes) => parse_from(coords@, meta@, ci as int, mi as int) matches Ok(rest)
                    && shapes == geoms@.map_values(|g: Geom32| shape_of(g)) + rest,
                Err(e) => parse_from(coords@, meta@, ci as int, mi as int) == Err::<
                    Seq<GeomShape>,
                    MetaError,
                >(e),
            },
        decreases meta@.len() - mi,
    {
        let ghost c0 = ci;
        let ghost m0 = mi;
        proof {
            lemma_parse_one(coords@, ci as int, meta@, mi as int);
        }
        let g = match parse_one(coords, &mut ci, meta, &mut mi) {
            Ok(g) => g,
            Err(e) => {
                return Err(e);
            },
        };
        let ghost before = geoms@;
        geoms.push(g);
        proof {
            assert(geoms@.map_values(|g: Geom32| shape_of(g)) =~= before.map_values(
                |g: Geom32| shape_of(g),
            ).push(shape_of(g)));
            if let Ok(shapes) = parse_meta_spec(coords@, meta@) {
                if let Ok(rest) = parse_from(coords@, meta@, ci as int, mi as int) {
                    assert(before.map_values(|g: Geom32| shape_of(g)) + (seq![shape_of(g)] + rest)
                        =~= geoms@.map_values(|g: Geom32| shape_of(g)) + rest);
                }
            }
        }
    }
    if ci != coords.len() {
        return Err(MetaError::Unconsumed { used: ci, total: coords.len() });
    }
    proof {
        if let Ok(shapes) = parse_meta_spec(coords@, meta@) {
            assert(shapes =~= geoms@.map_values(|g: Geom32| shape_of(g)));
        }
    }
    Ok(geoms)
}

} // verus!
