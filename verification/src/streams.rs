use vstd::prelude::*;

use crate::geometry_type::GeometryType;

verus! {

/// Consecutive differences of `s`: element `i` is `s[i + 1] - s[i]`.
pub open spec fn diffs(s: Seq<u32>) -> Seq<u32> {
    if s.len() == 0 {
        Seq::empty()
    } else {
        Seq::new((s.len() - 1) as nat, |i: int| (s[i + 1] - s[i]) as u32)
    }
}

/// Every element is at least the one before it.
pub open spec fn steps_non_decreasing(s: Seq<u32>) -> bool {
    forall|i: int| 1 <= i < s.len() ==> s[i - 1] <= #[trigger] s[i]
}

/// The closed range `s[lo..=hi]`.
pub open spec fn closed_range(s: Seq<u32>, lo: int, hi: int) -> Seq<u32> {
    s.subrange(lo, hi + 1)
}

/// Whether `closed_range(s, lo, hi)` can be taken and differenced without fault:
/// a non-empty range inside `s` whose elements do not decrease.
pub open spec fn range_ok(s: Seq<u32>, lo: int, hi: int) -> bool {
    &&& 0 <= lo <= hi < s.len()
    &&& steps_non_decreasing(closed_range(s, lo, hi))
}

/// Appends the consecutive differences of `offsets` to `lengths` and returns
/// the number of values appended.
pub fn extend_offsets(lengths: &mut Vec<u32>, offsets: &[u32]) -> (n: usize)
    requires
        offsets@.len() >= 1,
        steps_non_decreasing(offsets@),
    ensures
        final(lengths)@ == old(lengths)@ + diffs(offsets@),
        n == offsets@.len() - 1,
{
    let ghost start = lengths@;
    let len = offsets.len();
    let mut i: usize = 1;
    while i < len
        invariant
            1 <= i <= len,
            len == offsets@.len(),
            steps_non_decreasing(offsets@),
            lengths@ == start + diffs(offsets@.subrange(0, i as int)),
        decreases len - i,
    {
        assert(offsets@[i - 1] <= offsets@[i as int]);
        lengths.push(offsets[i] - offsets[i - 1]);
        i = i + 1;
        assert(diffs(offsets@.subrange(0, i as int)) =~= diffs(
            offsets@.subrange(0, (i - 1) as int),
        ).push((offsets@[i - 1] - offsets@[i - 2]) as u32));
    }
    assert(offsets@.subrange(0, len as int) =~= offsets@);
    len - 1
}

/// Number of (type, offset-window) pairs formed by zipping `types` with the
/// windows of size two over `offsets`.
pub open spec fn zip_len(types: Seq<GeometryType>, offsets: Seq<u32>) -> int {
    if offsets.len() == 0 {
        0
    } else if types.len() <= offsets.len() - 1 {
        types.len() as int
    } else {
        offsets.len() - 1
    }
}

/// Lengths `offsets[i + 1] - offsets[i]` for the first `n` zipped pairs whose
/// type comes after `buffer_id`, in order.
pub open spec fn root_lengths(
    types: Seq<GeometryType>,
    offsets: Seq<u32>,
    buffer_id: GeometryType,
    n: int,
) -> Seq<u32>
    decreases n,
{
    if n <= 0 {
        Seq::empty()
    } else {
        root_lengths(types, offsets, buffer_id, n - 1) + if types[n - 1].spec_code()
            > buffer_id.spec_code() {
            seq![(offsets[n] - offsets[n - 1]) as u32]
        } else {
            Seq::empty()
        }
    }
}

/// No selected pair has a decreasing window.
pub open spec fn root_lengths_ok(
    types: Seq<GeometryType>,
    offsets: Seq<u32>,
    buffer_id: GeometryType,
) -> bool {
    forall|i: int|
        0 <= i < zip_len(types, offsets) && #[trigger] types[i].spec_code()
            > buffer_id.spec_code() ==> offsets[i] <= offsets[i + 1]
}

/// Converts dense geometry offsets to a length stream: one length per feature
/// whose type comes after `buffer_id`.
pub fn encode_root_length_stream(
    geom_types: &[GeometryType],
    geom_offsets: &[u32],
    buffer_id: GeometryType,
) -> (lengths: Vec<u32>)
    requires
        root_lengths_ok(geom_types@, geom_offsets@, buffer_id),
    ensures
        lengths@ == root_lengths(
            geom_types@,
            geom_offsets@,
            buffer_id,
            zip_len(geom_types@, geom_offsets@),
        ),
{
    let n: usize = if geom_offsets.len() == 0 {
        0
    } else if geom_types.len() <= geom_offsets.len() - 1 {
        geom_types.len()
    } else {
        geom_offsets.len() - 1
    };
    let mut lengths: Vec<u32> = Vec::new();
    let mut i: usize = 0;
    while i < n
        invariant
            0 <= i <= n,
            n == zip_len(geom_types@, geom_offsets@),
            root_lengths_ok(geom_types@, geom_offsets@, buffer_id),
            lengths@ == root_lengths(geom_types@, geom_offsets@, buffer_id, i as int),
        decreases n - i,
    {
        let t = geom_types[i];
        if t.is_after(buffer_id) {
            assert(geom_offsets@[i as int] <= geom_offsets@[i + 1]);
            lengths.push(geom_offsets[i + 1] - geom_offsets[i]);
        }
        i = i + 1;
    }
    lengths
}

/// Whether a feature of type `t` is selected: polygons when `polygons`,
/// line strings when `lines`.
pub open spec fn selected(t: GeometryType, polygons: bool, lines: bool) -> bool {
    (polygons && t.spec_is_polygon()) || (lines && t.spec_is_linestring())
}

/// For the first `n` features, the differences of `inner[outer[i]..=outer[i + 1]]`
/// for every selected feature, concatenated in order.
pub open spec fn nested_lengths(
    types: Seq<GeometryType>,
    outer: Seq<u32>,
    inner: Seq<u32>,
    polygons: bool,
    lines: bool,
    n: int,
) -> Seq<u32>
    decreases n,
{
    if n <= 0 {
        Seq::empty()
    } else {
        nested_lengths(types, outer, inner, polygons, lines, n - 1) + if selected(
            types[n - 1],
            polygons,
            lines,
        ) {
            diffs(closed_range(inner, outer[n - 1] as int, outer[n] as int))
        } else {
            Seq::empty()
        }
    }
}

/// Every selected feature has an offset window inside `outer` that spans a
/// non-decreasing, non-empty range of `inner`.
pub open spec fn nested_lengths_ok(
    types: Seq<GeometryType>,
    outer: Seq<u32>,
    inner: Seq<u32>,
    polygons: bool,
    lines: bool,
) -> bool {
    forall|i: int|
        0 <= i < types.len() && #[trigger] selected(types[i], polygons, lines) ==> {
            &&& i + 1 < outer.len()
            &&& range_ok(inner, outer[i] as int, outer[i + 1] as int)
        }
}

/// Appends the differences of `inner[lo..=hi]` to `lengths`.
fn extend_range(lengths: &mut Vec<u32>, inner: &[u32], lo: usize, hi: usize)
    requires
        range_ok(inner@, lo as int, hi as int),
    ensures
        final(lengths)@ == old(lengths)@ + diffs(closed_range(inner@, lo as int, hi as int)),
{
    let len = inner.len();
    assert(hi < len);
    let slice = vstd::slice::slice_subrange(inner, lo, hi + 1);
    extend_offsets(lengths, slice);
}

/// The shared loop of the level-1 style streams.
fn nested_length_stream(
    geom_types: &[GeometryType],
    outer: &[u32],
    inner: &[u32],
    polygons: bool,
    lines: bool,
) -> (lengths: Vec<u32>)
    requires
        nested_lengths_ok(geom_types@, outer@, inner@, polygons, lines),
    ensures
        lengths@ == nested_lengths(
            geom_types@,
            outer@,
            inner@,
            polygons,
            lines,
            geom_types@.len() as int,
        ),
{
    let mut lengths: Vec<u32> = Vec::new();
    let n = geom_types.len();
    let mut i: usize = 0;
    while i < n
        invariant
            0 <= i <= n,
            n == geom_types@.len(),
            nested_lengths_ok(geom_types@, outer@, inner@, polygons, lines),
            lengths@ == nested_lengths(geom_types@, outer@, inner@, polygons, lines, i as int),
        decreases n - i,
    {
        let t = geom_types[i];
        if (polygons && t.is_polygon()) || (lines && t.is_linestring()) {
            assert(selected(geom_types@[i as int], polygons, lines));
            let s = outer[i] as usize;
            let e = outer[i + 1] as usize;
            extend_range(&mut lengths, inner, s, e);
        }
        i = i + 1;
    }
    lengths
}

/// Converts dense part offsets to a level-1 length stream: ring counts of
/// polygon parts, and of line-string parts when `is_line_string_present`.
pub fn encode_level1_length_stream(
    geom_types: &[GeometryType],
    geom_offsets: &[u32],
    part_offsets: &[u32],
    is_line_string_present: bool,
) -> (lengths: Vec<u32>)
    requires
        nested_lengths_ok(geom_types@, geom_offsets@, part_offsets@, true, is_line_string_present),
    ensures
        lengths@ == nested_lengths(
            geom_types@,
            geom_offsets@,
            part_offsets@,
            true,
            is_line_string_present,
            geom_types@.len() as int,
        ),
{
    nested_length_stream(geom_types, geom_offsets, part_offsets, true, is_line_string_present)
}

/// Computes ring vertex-count lengths from dense part and ring offset arrays,
/// for polygons and, when `has_line_string`, line strings.
pub fn encode_ring_lengths_for_mixed(
    geom_types: &[GeometryType],
    part_offsets: &[u32],
    ring_offsets: &[u32],
    has_line_string: bool,
) -> (lengths: Vec<u32>)
    requires
        nested_lengths_ok(geom_types@, part_offsets@, ring_offsets@, true, has_line_string),
    ensures
        lengths@ == nested_lengths(
            geom_types@,
            part_offsets@,
            ring_offsets@,
            true,
            has_line_string,
            geom_types@.len() as int,
        ),
{
    nested_length_stream(geom_types, part_offsets, ring_offsets, true, has_line_string)
}

/// Converts dense part offsets without a ring buffer to a length stream:
/// vertex counts of the parts of line strings.
pub fn encode_level1_without_ring_buffer_length_stream(
    geom_types: &[GeometryType],
    geom_offsets: &[u32],
    part_offsets: &[u32],
) -> (lengths: Vec<u32>)
    requires
        nested_lengths_ok(geom_types@, geom_offsets@, part_offsets@, false, true),
    ensures
        lengths@ == nested_lengths(
            geom_types@,
            geom_offsets@,
            part_offsets@,
            false,
            true,
            geom_types@.len() as int,
        ),
{
    nested_length_stream(geom_types, geom_offsets, part_offsets, false, true)
}

/// For parts `lo..hi`, the differences of `ring[part[j]..=part[j + 1]]`, concatenated.
pub open spec fn part_range_lengths(part: Seq<u32>, ring: Seq<u32>, lo: int, hi: int) -> Seq<
    u32,
>
    decreases hi - lo,
{
    if hi <= lo {
        Seq::empty()
    } else {
        part_range_lengths(part, ring, lo, hi - 1) + diffs(
            closed_range(ring, part[hi - 1] as int, part[hi] as int),
        )
    }
}

/// Every part in `lo..hi` has a window inside `part` spanning a valid range of `ring`.
pub open spec fn part_range_ok(part: Seq<u32>, ring: Seq<u32>, lo: int, hi: int) -> bool {
    forall|j: int|
        #![trigger part[j]]
        lo <= j < hi ==> {
            &&& j + 1 < part.len()
            &&& range_ok(ring, part[j] as int, part[j + 1] as int)
        }
}

proof fn lemma_part_range_at(part: Seq<u32>, ring: Seq<u32>, lo: int, hi: int, j: int)
    requires
        part_range_ok(part, ring, lo, hi),
        lo <= j < hi,
    ensures
        j + 1 < part.len(),
        range_ok(ring, part[j] as int, part[j + 1] as int),
{
}

/// Appends the ring lengths of parts `lo..hi` to `lengths`.
fn extend_part_range(
    lengths: &mut Vec<u32>,
    part: &[u32],
    ring: &[u32],
    lo: usize,
    hi: usize,
)
    requires
        part_range_ok(part@, ring@, lo as int, hi as int),
    ensures
        final(lengths)@ == old(lengths)@ + part_range_lengths(part@, ring@, lo as int, hi as int),
{
    let ghost before = lengths@;
    if lo < hi {
        let mut j: usize = lo;
        while j < hi
            invariant
                lo <= j <= hi,
                part_range_ok(part@, ring@, lo as int, hi as int),
                lengths@ == before + part_range_lengths(part@, ring@, lo as int, j as int),
            decreases hi - j,
        {
            proof {
                lemma_part_range_at(part@, ring@, lo as int, hi as int, j as int);
            }
            let ps = part[j] as usize;
            let pe = part[j + 1] as usize;
            extend_range(lengths, ring, ps, pe);
            j = j + 1;
            assert(before + part_range_lengths(part@, ring@, lo as int, j as int) =~= before
                + part_range_lengths(part@, ring@, lo as int, (j - 1) as int) + diffs(
                closed_range(ring@, ps as int, pe as int),
            ));
        }
    } else {
        assert(lengths@ =~= before + part_range_lengths(part@, ring@, lo as int, hi as int));
    }
}

/// For the first `n` features, the ring lengths of every part of polygons and line strings.
pub open spec fn level2_lengths(
    types: Seq<GeometryType>,
    geom: Seq<u32>,
    part: Seq<u32>,
    ring: Seq<u32>,
    n: int,
) -> Seq<u32>
    decreases n,
{
    if n <= 0 {
        Seq::empty()
    } else {
        level2_lengths(types, geom, part, ring, n - 1) + if types[n - 1].spec_is_polygon()
            || types[n - 1].spec_is_linestring() {
            part_range_lengths(part, ring, geom[n - 1] as int, geom[n] as int)
        } else {
            Seq::empty()
        }
    }
}

/// Every feature has a window in `geom`; polygons and line strings reach valid ring ranges.
pub open spec fn level2_ok(
    types: Seq<GeometryType>,
    geom: Seq<u32>,
    part: Seq<u32>,
    ring: Seq<u32>,
) -> bool {
    &&& types.len() < geom.len()
    &&& forall|i: int|
        0 <= i < types.len() && (#[trigger] types[i].spec_is_polygon()
            || types[i].spec_is_linestring()) ==> part_range_ok(
            part,
            ring,
            geom[i] as int,
            geom[i + 1] as int,
        )
}

/// Converts dense ring offsets to a level-2 length stream: `geom_offsets`
/// indexes into `part_offsets`, which indexes into `ring_offsets`.
pub fn encode_level2_length_stream(
    geom_types: &[GeometryType],
    geom_offsets: &[u32],
    part_offsets: &[u32],
    ring_offsets: &[u32],
) -> (lengths: Vec<u32>)
    requires
        level2_ok(geom_types@, geom_offsets@, part_offsets@, ring_offsets@),
    ensures
        lengths@ == level2_lengths(
            geom_types@,
            geom_offsets@,
            part_offsets@,
            ring_offsets@,
            geom_types@.len() as int,
        ),
{
    let mut lengths: Vec<u32> = Vec::new();
    let n = geom_types.len();
    let mut i: usize = 0;
    while i < n
        invariant
            0 <= i <= n,
            n == geom_types@.len(),
            level2_ok(geom_types@, geom_offsets@, part_offsets@, ring_offsets@),
            lengths@ == level2_lengths(
                geom_types@,
                geom_offsets@,
                part_offsets@,
                ring_offsets@,
                i as int,
            ),
        decreases n - i,
    {
        let gs = geom_offsets[i] as usize;
        let ge = geom_offsets[i + 1] as usize;
        let t = geom_types[i];
        if t.is_polygon() || t.is_linestring() {
            extend_part_range(&mut lengths, part_offsets, ring_offsets, gs, ge);
        }
        i = i + 1;
    }
    lengths
}

/// One step of the ring-slot walk: the ring index and part index after a
/// feature of type `t`, starting from `(ring_idx, part_idx)`.
pub open spec fn ring_slot_step(t: GeometryType, part: Seq<u32>, st: (int, int)) -> (int, int) {
    if t == GeometryType::Point {
        st
    } else if t.spec_is_linestring() {
        (st.0 + 1, st.1)
    } else if t.spec_is_polygon() && st.1 + 1 < part.len() {
        (st.0 + part[st.1 + 1] - part[st.1], st.1 + 1)
    } else {
        st
    }
}

/// The `(ring_idx, part_idx)` pair after walking the first `n` types.
pub open spec fn ring_slot_state(types: Seq<GeometryType>, part: Seq<u32>, n: int) -> (int, int)
    decreases n,
{
    if n <= 0 {
        (0, 0)
    } else {
        ring_slot_step(types[n - 1], part, ring_slot_state(types, part, n - 1))
    }
}

/// The walk never overflows nor sees a decreasing part window, and it ends on
/// the last slot of `ring` (`ring.len() - 1`, or 0 for an empty `ring`).
pub open spec fn ring_slots_ok(types: Seq<GeometryType>, part: Seq<u32>, ring: Seq<u32>) -> bool {
    &&& forall|i: int|
        #![trigger ring_slot_state(types, part, i)]
        0 <= i < types.len() ==> {
            let st = ring_slot_state(types, part, i);
            &&& types[i].spec_is_linestring() ==> st.0 + 1 <= u32::MAX
            &&& (types[i].spec_is_polygon() && st.1 + 1 < part.len()) ==> {
                &&& part[st.1] <= part[st.1 + 1]
                &&& st.0 + part[st.1 + 1] - part[st.1] <= u32::MAX
            }
        }
    &&& ring_slot_state(types, part, types.len() as int).0 == if ring.len() == 0 {
        0
    } else {
        ring.len() - 1
    }
}

proof fn lemma_ring_slot_bounds(types: Seq<GeometryType>, part: Seq<u32>, ring: Seq<u32>, n: int)
    requires
        ring_slots_ok(types, part, ring),
        0 <= n <= types.len(),
    ensures
        0 <= ring_slot_state(types, part, n).0 <= u32::MAX,
        0 <= ring_slot_state(types, part, n).1 <= n,
    decreases n,
{
    if n > 0 {
        lemma_ring_slot_bounds(types, part, ring, n - 1);
        let st = ring_slot_state(types, part, n - 1);
        assert(st == ring_slot_state(types, part, n - 1));
    }
}

/// Expands compact polygon-only part offsets to a dense per-geometry array:
/// slot `i` holds the first index into `ring_offsets` used by geometry `i`
/// (a `Point` uses none, a line string one, a polygon one per ring), and a
/// final slot holds the total.
pub fn normalize_part_offsets_for_rings(
    vector_types: &[GeometryType],
    part_offsets: &[u32],
    ring_offsets: &[u32],
) -> (normalized: Vec<u32>)
    requires
        ring_slots_ok(vector_types@, part_offsets@, ring_offsets@),
    ensures
        normalized@.len() == vector_types@.len() + 1,
        forall|i: int|
            0 <= i <= vector_types@.len() ==> #[trigger] normalized@[i] == ring_slot_state(
                vector_types@,
                part_offsets@,
                i,
            ).0,
{
    let ghost types = vector_types@;
    let ghost part = part_offsets@;
    let n = vector_types.len();
    let mut normalized: Vec<u32> = Vec::new();
    let mut ring_idx: u32 = 0;
    let mut part_idx: usize = 0;
    let mut i: usize = 0;
    while i < n
        invariant
            0 <= i <= n,
            n == types.len(),
            types == vector_types@,
            part == part_offsets@,
            ring_slots_ok(types, part, ring_offsets@),
            ring_slot_state(types, part, i as int) == (ring_idx as int, part_idx as int),
            normalized@.len() == i,
            forall|k: int|
                0 <= k < i ==> #[trigger] normalized@[k] == ring_slot_state(types, part, k).0,
        decreases n - i,
    {
        let geom_type = vector_types[i];
        proof {
            lemma_ring_slot_bounds(types, part, ring_offsets@, i as int);
        }
        normalized.push(ring_idx);
        assert(ring_slot_state(types, part, i as int) == ring_slot_state(types, part, i as int));
        if geom_type == GeometryType::Point {
        } else if geom_type.is_linestring() {
            ring_idx = ring_idx + 1;
        } else if geom_type.is_polygon() && part_idx + 1 < part_offsets.len() {
            let ring_count = part_offsets[part_idx + 1] - part_offsets[part_idx];
            ring_idx = ring_idx + ring_count;
            part_idx = part_idx + 1;
        }
        i = i + 1;
        assert(ring_slot_state(types, part, i as int) == ring_slot_step(
            types[i - 1],
            part,
            ring_slot_state(types, part, i - 1),
        ));
    }
    normalized.push(ring_idx);
    normalized
}

} // verus!
