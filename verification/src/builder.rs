//! Column-at-a-time layer building: ids, geometry from flat arrays and
//! property columns from raw buffers are set on a layer encoder, which then
//! becomes a staged layer; a tile encoder collects staged layers.
use vstd::prelude::*;
use vstd::slice::slice_subrange;

use crate::column::{
    element, elem_size, read_bools, read_i32s, read_i64s, read_i8s, read_u32s, read_u64s, read_u8s,
    machine_little_endian, native_little_endian, reads_i32, reads_i64, reads_u32, reads_u64, MltColumnType,
};
use crate::geom::Geom32;
use crate::meta::{meta_error_text, parse_meta_geometries, parse_meta_spec, shape_of};
use crate::model::from_geoms_spec;
use crate::staged::{all_present, IdValues, StagedLayer01, StagedProperty};
use crate::text::{append_number, decimal, lossy_string, utf8_lossy};
use crate::values::GeometryValues;

verus! {

/// Values under a presence mask, as far as both reach: a value where its
/// flag is set, nothing where it is clear.
pub open spec fn masked_values<T>(vs: Seq<T>, p: Seq<bool>) -> Seq<Option<T>> {
    Seq::new(
        if vs.len() <= p.len() {
            vs.len()
        } else {
            p.len()
        },
        |i: int|
            if p[i] {
                Some(vs[i])
            } else {
                None
            },
    )
}

/// Values under an optional presence mask; without a mask every value is present.
pub open spec fn with_presence<T>(vs: Seq<T>, present: Option<Seq<bool>>) -> Seq<Option<T>> {
    match present {
        Some(p) => masked_values(vs, p),
        None => all_present(vs),
    }
}

/// The flags of an optional presence mask.
pub open spec fn mask_view(present: Option<&[bool]>) -> Option<Seq<bool>> {
    match present {
        Some(p) => Some(p@),
        None => None,
    }
}

/// `vals` are the `count` elements accepted by `ok` under the optional
/// presence mask: as many entries as elements and flags both reach, each
/// present exactly where its flag is set (always without a mask).
pub open spec fn masked_by<T>(
    vals: Seq<Option<T>>,
    count: nat,
    present: Option<Seq<bool>>,
    ok: spec_fn(int, T) -> bool,
) -> bool {
    &&& vals.len() == match present {
        Some(p) => if count <= p.len() {
            count
        } else {
            p.len()
        },
        None => count,
    }
    &&& forall|i: int|
        0 <= i < vals.len() ==> match #[trigger] vals[i] {
            Some(v) => ok(i, v) && (present matches Some(p) ==> p[i]),
            None => present matches Some(p) && !p[i],
        }
}

/// `p` is the column named `name` of type `t` read from `count` elements of
/// `data` under the optional presence mask. Multi-byte elements are all read
/// little-endian (`le`) or all big-endian; floating-point columns hold bit
/// patterns.
pub open spec fn column_ok(
    p: StagedProperty,
    t: MltColumnType,
    name: Seq<char>,
    data: Seq<u8>,
    count: nat,
    present: Option<Seq<bool>>,
    le: bool,
) -> bool {
    match t {
        MltColumnType::Bool => p matches StagedProperty::Bool(c) && c.name@ == name && masked_by(
            c.values@,
            count,
            present,
            |i: int, v: bool| v == (data[i] != 0),
        ),
        MltColumnType::I8 => p matches StagedProperty::I8(c) && c.name@ == name && masked_by(
            c.values@,
            count,
            present,
            |i: int, v: i8| v == data[i] as i8,
        ),
        MltColumnType::U8 => p matches StagedProperty::U8(c) && c.name@ == name && masked_by(
            c.values@,
            count,
            present,
            |i: int, v: u8| v == data[i],
        ),
        MltColumnType::I32 => p matches StagedProperty::I32(c) && c.name@ == name && masked_by(
            c.values@,
            count,
            present,
            |i: int, v: i32| reads_i32(element(data, 4, i), v, le),
        ),
        MltColumnType::U32 => p matches StagedProperty::U32(c) && c.name@ == name && masked_by(
            c.values@,
            count,
            present,
            |i: int, v: u32| reads_u32(element(data, 4, i), v, le),
        ),
        MltColumnType::I64 => p matches StagedProperty::I64(c) && c.name@ == name && masked_by(
            c.values@,
            count,
            present,
            |i: int, v: i64| reads_i64(element(data, 8, i), v, le),
        ),
        MltColumnType::U64 => p matches StagedProperty::U64(c) && c.name@ == name && masked_by(
            c.values@,
            count,
            present,
            |i: int, v: u64| reads_u64(element(data, 8, i), v, le),
        ),
        MltColumnType::F32 => p matches StagedProperty::F32(c) && c.name@ == name && masked_by(
            c.values@,
            count,
            present,
            |i: int, v: u32| reads_u32(element(data, 4, i), v, le),
        ),
        MltColumnType::F64 => p matches StagedProperty::F64(c) && c.name@ == name && masked_by(
            c.values@,
            count,
            present,
            |i: int, v: u64| reads_u64(element(data, 8, i), v, le),
        ),
    }
}

/// The name of a column type in error texts.
pub open spec fn column_type_label(t: MltColumnType) -> Seq<char> {
    match t {
        MltColumnType::Bool => "bool"@,
        MltColumnType::I8 => "i8"@,
        MltColumnType::U8 => "u8"@,
        MltColumnType::I32 => "i32"@,
        MltColumnType::U32 => "u32"@,
        MltColumnType::I64 => "i64"@,
        MltColumnType::U64 => "u64"@,
        MltColumnType::F32 => "f32"@,
        MltColumnType::F64 => "f64"@,
    }
}

/// The error text of a column buffer of `have` bytes too short for `count` elements.
pub open spec fn column_size_text(t: MltColumnType, count: nat, have: nat) -> Seq<char> {
    if t is Bool {
        "bool column: need "@ + decimal(count) + " bytes, got "@ + decimal(have)
    } else {
        column_type_label(t) + " column: need "@ + decimal(count * elem_size(t)) + " bytes for "@ + decimal(
            count,
        ) + " elements, got "@ + decimal(have)
    }
}

/// The error text of an id column whose presence mask differs in length.
pub open spec fn ids_mismatch_text(ids: nat, present: nat) -> Seq<char> {
    "ids length ("@ + decimal(ids) + ") != present length ("@ + decimal(present) + ")"@
}

/// A presence mask is given whose length differs from `n`.
pub open spec fn mask_mismatch(n: nat, present: Option<Seq<bool>>) -> bool {
    present matches Some(p) && p.len() != n
}

/// The error text of a layer staged without geometry.
pub open spec fn missing_geometry_text() -> Seq<char> {
    "geometry was not set"@
}

/// The string of entry `i` of a string column: the bytes between offsets
/// `i` and `i + 1`, decoded leniently; empty where the offsets do not
/// delimit a range of `data`.
pub open spec fn string_at(data: Seq<u8>, offsets: Seq<u32>, i: int) -> Seq<char> {
    if offsets[i] <= offsets[i + 1] && offsets[i + 1] <= data.len() {
        utf8_lossy(data.subrange(offsets[i] as int, offsets[i + 1] as int))
    } else {
        Seq::empty()
    }
}

/// The entries of a string column with `offsets`: one fewer than offsets
/// (none for fewer than two offsets), each present where the optional mask
/// has a set flag for it, or always without a mask.
pub open spec fn string_column(data: Seq<u8>, offsets: Seq<u32>, present: Option<Seq<bool>>) -> Seq<
    Option<Seq<char>>,
> {
    let n: int = if offsets.len() < 2 {
        0
    } else {
        offsets.len() - 1
    };
    Seq::new(
        n as nat,
        |i: int|
            if present matches Some(p) && !(i < p.len() && p[i]) {
                None
            } else {
                Some(string_at(data, offsets, i))
            },
    )
}

/// The values of a string column.
pub open spec fn str_values(vs: Seq<Option<String>>) -> Seq<Option<Seq<char>>> {
    vs.map_values(
        |o: Option<String>|
            match o {
                Some(s) => Some(s@),
                None => None,
            },
    )
}

/// The error text of a result, or nothing on success.
pub open spec fn result_text(r: Result<(), String>) -> Option<Seq<char>> {
    match r {
        Ok(_) => None,
        Err(e) => Some(e@),
    }
}

/// Everything but the ids is unchanged.
pub open spec fn same_but_ids(pre: MltLayerEncoder, post: MltLayerEncoder) -> bool {
    post.name == pre.name && post.extent == pre.extent && post.geometries == pre.geometries
        && post.properties == pre.properties
}

/// Everything but the geometries is unchanged.
pub open spec fn same_but_geometries(pre: MltLayerEncoder, post: MltLayerEncoder) -> bool {
    post.name == pre.name && post.extent == pre.extent && post.ids == pre.ids && post.properties
        == pre.properties
}

/// One property was appended and nothing else changed.
pub open spec fn one_property_added(pre: MltLayerEncoder, post: MltLayerEncoder) -> bool {
    &&& post.properties@.len() == pre.properties@.len() + 1
    &&& post.properties@.take(pre.properties@.len() as int) == pre.properties@
    &&& post.name == pre.name
    &&& post.extent == pre.extent
    &&& post.ids == pre.ids
    &&& post.geometries == pre.geometries
}

/// Setting the ids: with a mask of another length than the ids, the
/// mismatch error and no change; otherwise success, the ids under the mask,
/// and nothing else changed.
pub open spec fn set_ids_post(
    pre: MltLayerEncoder,
    post: MltLayerEncoder,
    ids: Seq<u64>,
    present: Option<Seq<bool>>,
    err: Option<Seq<char>>,
) -> bool {
    if mask_mismatch(ids.len(), present) {
        err == Some(ids_mismatch_text(ids.len(), present.unwrap().len())) && post == pre
    } else {
        &&& err is None
        &&& post.ids matches Some(v) && v.0@ == with_presence(ids, present)
        &&& same_but_ids(pre, post)
    }
}

/// Setting the geometry from flat input: on success the parsed geometries
/// and nothing else changed; on failure the text of the parse error and no
/// change.
pub open spec fn set_geometries_post(
    pre: MltLayerEncoder,
    post: MltLayerEncoder,
    coords: Seq<i32>,
    meta: Seq<u32>,
    err: Option<Seq<char>>,
) -> bool {
    match parse_meta_spec(coords, meta) {
        Ok(shapes) => {
            &&& err is None
            &&& post.geometries matches Some(v) && v@.map_values(|g: Geom32| shape_of(g)) == shapes
            &&& same_but_geometries(pre, post)
        },
        Err(e) => err == Some(meta_error_text(e)) && post == pre,
    }
}

/// Adding a scalar column: with too few bytes for `count` elements, the
/// size error and no change; otherwise success and the column appended.
pub open spec fn add_column_post(
    pre: MltLayerEncoder,
    post: MltLayerEncoder,
    name: Seq<char>,
    t: MltColumnType,
    data: Seq<u8>,
    count: nat,
    present: Option<Seq<bool>>,
    err: Option<Seq<char>>,
) -> bool {
    if data.len() < count * elem_size(t) {
        err == Some(column_size_text(t, count, data.len())) && post == pre
    } else {
        &&& err is None
        &&& one_property_added(pre, post)
        &&& column_ok(
            post.properties@.last(),
            t,
            name,
            data,
            count,
            present,
            machine_little_endian(),
        )
    }
}

/// Adding a string column: the column appended.
pub open spec fn add_string_column_post(
    pre: MltLayerEncoder,
    post: MltLayerEncoder,
    name: Seq<char>,
    data: Seq<u8>,
    offsets: Seq<u32>,
    present: Option<Seq<bool>>,
) -> bool {
    &&& one_property_added(pre, post)
    &&& post.properties@.last() matches StagedProperty::Str(c) && c.name@ == name && str_values(
        c.values@,
    ) == string_column(data, offsets, present)
}

/// The layer's geometries, if set, can be laid out in columns without any
/// offset exceeding `u32`.
pub open spec fn stageable(e: MltLayerEncoder) -> bool {
    e.geometries matches Some(gs) ==> from_geoms_spec(gs@, false, Seq::empty()) is Some
}

/// `l` is the layer `e` staged: same name, extent, ids and properties, and
/// the geometry column built from its geometries.
pub open spec fn staged_from(l: StagedLayer01, e: MltLayerEncoder) -> bool {
    &&& l.name == e.name
    &&& l.extent == e.extent
    &&& l.id == e.ids
    &&& l.properties == e.properties
    &&& e.geometries matches Some(gs) && l.geometry@ == from_geoms_spec(
        gs@,
        false,
        Seq::empty(),
    ).unwrap()
}

/// Columnar layer encoder: ids, geometry and property columns are set one at
/// a time, then the layer is staged for encoding.
pub struct MltLayerEncoder {
    pub name: String,
    pub extent: u32,
    pub ids: Option<IdValues>,
    pub geometries: Option<Vec<Geom32>>,
    pub properties: Vec<StagedProperty>,
}

/// Tile encoder holding completed staged layers, in the order they were added.
pub struct MltTileEncoder {
    pub layers: Vec<StagedLayer01>,
}

/// The values under a presence mask (see [`masked_values`]).
fn mask<T: Copy>(vs: &[T], p: &[bool]) -> (r: Vec<Option<T>>)
    ensures
        r@ == masked_values(vs@, p@),
{
    let n = if vs.len() <= p.len() {
        vs.len()
    } else {
        p.len()
    };
    let mut r: Vec<Option<T>> = Vec::new();
    let mut i: usize = 0;
    while i < n
        invariant
            i <= n,
            n <= vs@.len(),
            n <= p@.len(),
            r@ == masked_values(vs@, p@).take(i as int),
        decreases n - i,
    {
        if p[i] {
            r.push(Some(vs[i]));
        } else {
            r.push(None);
        }
        i = i + 1;
        assert(r@ =~= masked_values(vs@, p@).take(i as int));
    }
    assert(r@ =~= masked_values(vs@, p@));
    r
}

/// The values, each marked present.
fn present_all<T: Copy>(vs: &[T]) -> (r: Vec<Option<T>>)
    ensures
        r@ == all_present(vs@),
{
    let n = vs.len();
    let mut r: Vec<Option<T>> = Vec::new();
    let mut i: usize = 0;
    while i < n
        invariant
            i <= n,
            n == vs@.len(),
            r@ == all_present(vs@).take(i as int),
        decreases n - i,
    {
        r.push(Some(vs[i]));
        i = i + 1;
        assert(r@ =~= all_present(vs@).take(i as int));
    }
    assert(r@ =~= all_present(vs@));
    r
}

/// Splits optional values into values and presence flags, filling absent
/// values with `T::default()`: masking the values with the flags gives back
/// exactly the optional values.
pub fn decompose_options<T: Copy + Default>(opts: &[Option<T>]) -> (r: (Vec<T>, Vec<bool>))
    ensures
        r.0@.len() == opts@.len(),
        r.1@.len() == opts@.len(),
        forall|i: int| 0 <= i < opts@.len() ==> #[trigger] r.1@[i] == opts@[i] is Some,
        forall|i: int| 0 <= i < opts@.len() ==> (#[trigger] opts@[i] matches Some(v) ==> r.0@[i] == v),
        with_presence(r.0@, Some(r.1@)) == opts@,
{
    let n = opts.len();
    let mut vals: Vec<T> = Vec::new();
    let mut pres: Vec<bool> = Vec::new();
    let mut i: usize = 0;
    while i < n
        invariant
            i <= n,
            n == opts@.len(),
            vals@.len() == i,
            pres@.len() == i,
            forall|j: int| 0 <= j < i ==> #[trigger] pres@[j] == opts@[j] is Some,
            forall|j: int| 0 <= j < i ==> (#[trigger] opts@[j] matches Some(v) ==> vals@[j] == v),
        decreases n - i,
    {
        match opts[i] {
            Some(v) => {
                vals.push(v);
                pres.push(true);
            },
            None => {
                vals.push(T::default());
                pres.push(false);
            },
        }
        i = i + 1;
    }
    assert forall|j: int| 0 <= j < n implies #[trigger] with_presence(vals@, Some(pres@))[j]
        == opts@[j] by {
        assert(pres@[j] == opts@[j] is Some);
    }
    assert(with_presence(vals@, Some(pres@)) =~= opts@);
    (vals, pres)
}

/// Builds a column with `non_opt` from the values, or, when a presence mask
/// is given, with `opt` from the values under the mask.
pub fn push_scalar_or_opt<T: Copy>(
    name: String,
    values: &[T],
    present: Option<&[bool]>,
    non_opt: impl Fn(String, Vec<T>) -> StagedProperty,
    opt: impl Fn(String, Vec<Option<T>>) -> StagedProperty,
) -> (r: StagedProperty)
    requires
        forall|n: String, v: Vec<T>| #[trigger] call_requires(non_opt, (n, v)),
        forall|n: String, v: Vec<Option<T>>| #[trigger] call_requires(opt, (n, v)),
    ensures
        present is None ==> exists|v: Vec<T>|
            v@ == values@ && #[trigger] call_ensures(non_opt, (name, v), r),
        present matches Some(p) ==> exists|v: Vec<Option<T>>|
            v@ == masked_values(values@, p@) && #[trigger] call_ensures(opt, (name, v), r),
{
    match present {
        Some(p) => {
            let v = mask(values, p);
            opt(name, v)
        },
        None => {
            let v = vstd::slice::slice_to_vec(values);
            non_opt(name, v)
        },
    }
}

proof fn lemma_masked_by<T>(
    vs: Seq<T>,
    count: nat,
    present: Option<Seq<bool>>,
    ok: spec_fn(int, T) -> bool,
)
    requires
        vs.len() == count,
        forall|i: int| 0 <= i < count ==> #[trigger] ok(i, vs[i]),
    ensures
        masked_by(with_presence(vs, present), count, present, ok),
{
    let vals = with_presence(vs, present);
    assert forall|i: int| 0 <= i < vals.len() implies match #[trigger] vals[i] {
        Some(v) => ok(i, v) && (present matches Some(p) ==> p[i]),
        None => present matches Some(p) && !p[i],
    } by {
        assert(ok(i, vs[i]));
    }
}

/// The error of a column buffer too short for its elements.
fn column_size_error(t: MltColumnType, count: usize, expected: usize, have: usize) -> (s: String)
    requires
        expected == count * elem_size(t),
    ensures
        s@ == column_size_text(t, count as nat, have as nat),
{
    let mut s = match t {
        MltColumnType::Bool => {
            let mut s = String::from_str("bool column: need ");
            append_number(&mut s, count as u64);
            s.append(" bytes, got ");
            append_number(&mut s, have as u64);
            return s;
        },
        MltColumnType::I8 => String::from_str("i8"),
        MltColumnType::U8 => String::from_str("u8"),
        MltColumnType::I32 => String::from_str("i32"),
        MltColumnType::U32 => String::from_str("u32"),
        MltColumnType::I64 => String::from_str("i64"),
        MltColumnType::U64 => String::from_str("u64"),
        MltColumnType::F32 => String::from_str("f32"),
        MltColumnType::F64 => String::from_str("f64"),
    };
    s.append(" column: need ");
    append_number(&mut s, expected as u64);
    s.append(" bytes for ");
    append_number(&mut s, count as u64);
    s.append(" elements, got ");
    append_number(&mut s, have as u64);
    s
}

/// The decoded string between two offsets, or an empty string where they do
/// not delimit a range of `data`.
fn string_between(data: &[u8], start: u32, end: u32) -> (s: String)
    ensures
        s@ == (if start <= end && end <= data@.len() {
            utf8_lossy(data@.subrange(start as int, end as int))
        } else {
            Seq::<char>::empty()
        }),
{
    if start <= end && (end as usize) <= data.len() {
        lossy_string(slice_subrange(data, start as usize, end as usize))
    } else {
        String::new()
    }
}

impl MltLayerEncoder {
    /// A layer encoder with the given name and extent, and nothing set.
    pub fn new(name: String, extent: u32) -> (e: MltLayerEncoder)
        ensures
            e.name == name,
            e.extent == extent,
            e.ids is None,
            e.geometries is None,
            e.properties@.len() == 0,
    {
        MltLayerEncoder { name, extent, ids: None, geometries: None, properties: Vec::new() }
    }

    /// Sets the id column. With a presence mask, which must have one flag
    /// per id, ids whose flag is clear are absent.
    pub fn set_ids(&mut self, ids: &[u64], present: Option<&[bool]>) -> (r: Result<(), String>)
        ensures
            set_ids_post(*old(self), *final(self), ids@, mask_view(present), result_text(r)),
    {
        let values = match present {
            Some(p) => {
                if p.len() != ids.len() {
                    let mut s = String::from_str("ids length (");
                    append_number(&mut s, ids.len() as u64);
                    s.append(") != present length (");
                    append_number(&mut s, p.len() as u64);
                    s.append(")");
                    return Err(s);
                }
                mask(ids, p)
            },
            None => present_all(ids),
        };
        self.ids = Some(IdValues(values));
        Ok(())
    }

    /// Sets the geometry from flat coordinates and meta entries (see
    /// [`crate::meta`]); on malformed input nothing changes and the error
    /// describes the first fault.
    pub fn set_geometries(&mut self, coords: &[i32], meta: &[u32]) -> (r: Result<(), String>)
        requires
            coords@.len() < usize::MAX,
        ensures
            set_geometries_post(*old(self), *final(self), coords@, meta@, result_text(r)),
    {
        match parse_meta_geometries(coords, meta) {
            Ok(v) => {
                self.geometries = Some(v);
                Ok(())
            },
            Err(e) => Err(e.message()),
        }
    }

    /// Adds a scalar column of `count` elements read from the raw bytes of
    /// `data` (multi-byte elements in the byte order of the machine), with an
    /// optional presence mask. Fails, changing nothing, when `data` is too
    /// short for `count` elements.
    pub fn add_column(
        &mut self,
        name: String,
        col_type: MltColumnType,
        data: &[u8],
        count: usize,
        present: Option<&[bool]>,
    ) -> (r: Result<(), String>)
        requires
            count * elem_size(col_type) <= usize::MAX,
        ensures
            add_column_post(
                *old(self),
                *final(self),
                name@,
                col_type,
                data@,
                count as nat,
                mask_view(present),
                result_text(r),
            ),
    {
        let size: usize = match col_type {
            MltColumnType::Bool | MltColumnType::I8 | MltColumnType::U8 => 1,
            MltColumnType::I32 | MltColumnType::U32 | MltColumnType::F32 => 4,
            MltColumnType::I64 | MltColumnType::U64 | MltColumnType::F64 => 8,
        };
        let expected = count * size;
        if data.len() < expected {
            return Err(column_size_error(col_type, count, expected, data.len()));
        }
        let le = native_little_endian();
        let ghost d = data@;
        let ghost pv = mask_view(present);
        let prop = match col_type {
            MltColumnType::Bool => {
                let vs = read_bools(data, count);
                proof {
                    lemma_masked_by(vs@, count as nat, pv, |i: int, v: bool| v == (d[i] != 0));
                }
                push_scalar_or_opt(
                    name,
                    vs.as_slice(),
                    present,
                    StagedProperty::bool,
                    StagedProperty::opt_bool,
                )
            },
            MltColumnType::I8 => {
                let vs = read_i8s(data, count);
                proof {
                    lemma_masked_by(vs@, count as nat, pv, |i: int, v: i8| v == d[i] as i8);
                }
                push_scalar_or_opt(
                    name,
                    vs.as_slice(),
                    present,
                    StagedProperty::i8,
                    StagedProperty::opt_i8,
                )
            },
            MltColumnType::U8 => {
                let vs = read_u8s(data, count);
                proof {
                    lemma_masked_by(vs@, count as nat, pv, |i: int, v: u8| v == d[i]);
                }
                push_scalar_or_opt(
                    name,
                    vs.as_slice(),
                    present,
                    StagedProperty::u8,
                    StagedProperty::opt_u8,
                )
            },
            MltColumnType::I32 => {
                let vs = read_i32s(data, count, le);
                proof {
                    lemma_masked_by(
                        vs@,
                        count as nat,
                        pv,
                        |i: int, v: i32| reads_i32(element(d, 4, i), v, le),
                    );
                }
                push_scalar_or_opt(
                    name,
                    vs.as_slice(),
                    present,
                    StagedProperty::i32,
                    StagedProperty::opt_i32,
                )
            },
            MltColumnType::U32 => {
                let vs = read_u32s(data, count, le);
                proof {
                    lemma_masked_by(
                        vs@,
                        count as nat,
                        pv,
                        |i: int, v: u32| reads_u32(element(d, 4, i), v, le),
                    );
                }
                push_scalar_or_opt(
                    name,
                    vs.as_slice(),
                    present,
                    StagedProperty::u32,
                    StagedProperty::opt_u32,
                )
            },
            MltColumnType::I64 => {
                let vs = read_i64s(data, count, le);
                proof {
                    lemma_masked_by(
                        vs@,
                        count as nat,
                        pv,
                        |i: int, v: i64| reads_i64(element(d, 8, i), v, le),
                    );
                }
                push_scalar_or_opt(
                    name,
                    vs.as_slice(),
                    present,
                    StagedProperty::i64,
                    StagedProperty::opt_i64,
                )
            },
            MltColumnType::U64 => {
                let vs = read_u64s(data, count, le);
                proof {
                    lemma_masked_by(
                        vs@,
                        count as nat,
                        pv,
                        |i: int, v: u64| reads_u64(element(d, 8, i), v, le),
                    );
                }
                push_scalar_or_opt(
                    name,
                    vs.as_slice(),
                    present,
                    StagedProperty::u64,
                    StagedProperty::opt_u64,
                )
            },
            MltColumnType::F32 => {
                let vs = read_u32s(data, count, le);
                proof {
                    lemma_masked_by(
                        vs@,
                        count as nat,
                        pv,
                        |i: int, v: u32| reads_u32(element(d, 4, i), v, le),
                    );
                }
                push_scalar_or_opt(
                    name,
                    vs.as_slice(),
                    present,
                    StagedProperty::f32_bits,
                    StagedProperty::opt_f32,
                )
            },
            MltColumnType::F64 => {
                let vs = read_u64s(data, count, le);
                proof {
                    lemma_masked_by(
                        vs@,
                        count as nat,
                        pv,
                        |i: int, v: u64| reads_u64(element(d, 8, i), v, le),
                    );
                }
                push_scalar_or_opt(
                    name,
                    vs.as_slice(),
                    present,
                    StagedProperty::f64_bits,
                    StagedProperty::opt_f64,
                )
            },
        };
        let ghost before = self.properties@;
        self.properties.push(prop);
        assert(self.properties@.take(before.len() as int) =~= before);
        Ok(())
    }

    /// Adds a string column from concatenated UTF-8 bytes delimited by
    /// `offsets` (one more than the number of entries), with an optional
    /// presence mask; invalid UTF-8 is replaced with U+FFFD and offsets that
    /// do not delimit a range of `data` give an empty string.
    pub fn add_string_column_raw(
        &mut self,
        name: String,
        data: &[u8],
        offsets: &[u32],
        present: Option<&[bool]>,
    )
        ensures
            add_string_column_post(
                *old(self),
                *final(self),
                name@,
                data@,
                offsets@,
                mask_view(present),
            ),
    {
        let ghost before = self.properties@;
        let ghost expected = string_column(data@, offsets@, mask_view(present));
        if offsets.len() < 2 {
            let p = StagedProperty::str(name, Vec::new());
            proof {
                if let StagedProperty::Str(c) = &p {
                    assert(str_values(c.values@) =~= expected);
                }
            }
            self.properties.push(p);
            assert(self.properties@.take(before.len() as int) =~= before);
            return;
        }
        let count = offsets.len() - 1;
        let p = match present {
            Some(mask) => {
                let mut values: Vec<Option<String>> = Vec::new();
                let mut i: usize = 0;
                while i < count
                    invariant
                        i <= count,
                        count + 1 == offsets@.len(),
                        expected == string_column(data@, offsets@, Some(mask@)),
                        str_values(values@) == expected.take(i as int),
                    decreases count - i,
                {
                    let ghost prev = values@;
                    if i < mask.len() && mask[i] {
                        let s = string_between(data, offsets[i], offsets[i + 1]);
                        values.push(Some(s));
                    } else {
                        values.push(None);
                    }
                    i = i + 1;
                    assert(str_values(values@) =~= str_values(prev).push(expected[i - 1]));
                    assert(str_values(values@) =~= expected.take(i as int));
                }
                assert(expected.take(count as int) =~= expected);
                StagedProperty::opt_str(name, values)
            },
            None => {
                let mut values: Vec<String> = Vec::new();
                let mut i: usize = 0;
                while i < count
                    invariant
                        i <= count,
                        count + 1 == offsets@.len(),
                        expected == string_column(data@, offsets@, None),
                        values@.len() == i,
                        forall|j: int|
                            0 <= j < i ==> expected[j] == Some(#[trigger] values@[j]@),
                    decreases count - i,
                {
                    let s = string_between(data, offsets[i], offsets[i + 1]);
                    values.push(s);
                    i = i + 1;
                }
                let p = StagedProperty::str(name, values);
                proof {
                    if let StagedProperty::Str(c) = &p {
                        assert(str_values(c.values@) =~= expected);
                    }
                }
                p
            },
        };
        self.properties.push(p);
        assert(self.properties@.take(before.len() as int) =~= before);
    }

    /// The staged layer: this layer's name, extent, ids and properties, with
    /// the geometry column built from the geometries (untessellated). Fails
    /// when no geometry was set.
    pub fn into_staged(self) -> (r: Result<StagedLayer01, String>)
        requires
            stageable(self),
        ensures
            self.geometries is None ==> (r matches Err(e) && e@ == missing_geometry_text()),
            self.geometries is Some ==> (r matches Ok(l) && staged_from(l, self)),
    {
        let geoms = match self.geometries {
            Some(g) => g,
            None => {
                return Err(String::from_str("geometry was not set"));
            },
        };
        let none: Vec<crate::model::EarcutRaw> = Vec::new();
        assert(none@ =~= Seq::<crate::model::EarcutRaw>::empty());
        let geometry = GeometryValues::from_geoms(geoms.as_slice(), false, none.as_slice());
        Ok(
            StagedLayer01 {
                name: self.name,
                extent: self.extent,
                id: self.ids,
                geometry,
                properties: self.properties,
            },
        )
    }
}

impl Default for MltTileEncoder {
    /// A tile encoder without layers.
    fn default() -> (t: MltTileEncoder)
        ensures
            t.layers@.len() == 0,
    {
        MltTileEncoder { layers: Vec::new() }
    }
}

impl MltTileEncoder {
    /// A tile encoder without layers.
    pub fn new() -> (t: MltTileEncoder)
        ensures
            t.layers@.len() == 0,
    {
        MltTileEncoder { layers: Vec::new() }
    }

    /// Appends a staged layer.
    pub fn add_layer(&mut self, layer: StagedLayer01)
        ensures
            final(self).layers@ == old(self).layers@.push(layer),
    {
        self.layers.push(layer);
    }

    /// The staged layers, in the order they were added.
    pub fn into_layers(self) -> (layers: Vec<StagedLayer01>)
        ensures
            layers@ == self.layers@,
    {
        self.layers
    }
}

} // verus!
