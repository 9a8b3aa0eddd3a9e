//! Row-oriented features and the building of one staged property column
//! from them, reading the features in a given order.
use vstd::prelude::*;

use crate::builder::str_values;
use crate::geom::Geom32;
use crate::model::{empty_model, push_all_spec, push_geom_spec, EarcutRaw};
use crate::staged::{all_present, IdValues, ScalarColumn, StagedLayer01, StagedProperty};
use crate::values::GeometryValues;
use std::collections::HashMap;

verus! {

broadcast use vstd::std_specs::hash::group_hash_axioms;

/// A property value of a feature: its column type and, when present, its
/// value (floating-point values as bit patterns).
pub enum PropValue {
    Bool(Option<bool>),
    I8(Option<i8>),
    U8(Option<u8>),
    I32(Option<i32>),
    U32(Option<u32>),
    I64(Option<i64>),
    U64(Option<u64>),
    F32(Option<u32>),
    F64(Option<u64>),
    Str(Option<String>),
}

/// One map feature: optional id, geometry and property values by column.
pub struct TileFeature {
    pub id: Option<u64>,
    pub geometry: Geom32,
    pub properties: Vec<PropValue>,
}

/// The property of `f` in column `col`, if it has that many.
pub open spec fn prop_at(f: TileFeature, col: int) -> Option<PropValue> {
    if 0 <= col < f.properties@.len() {
        Some(f.properties@[col])
    } else {
        None
    }
}

/// The first property in column `col` among the features in `perm` order.
pub open spec fn first_prop(features: Seq<TileFeature>, perm: Seq<usize>, col: int) -> Option<
    PropValue,
>
    decreases perm.len(),
{
    if perm.len() == 0 {
        None
    } else {
        match prop_at(features[perm[0] as int], col) {
            Some(v) => Some(v),
            None => first_prop(features, perm.drop_first(), col),
        }
    }
}

/// The column types a property column can have.
#[derive(Debug, Clone, Copy, PartialEq, Eq, Structural)]
pub enum PropKind {
    Bool,
    I8,
    U8,
    I32,
    U32,
    I64,
    U64,
    F32,
    F64,
    Str,
}

/// The column type of a property; a string column when there is none.
pub open spec fn kind_of(p: Option<PropValue>) -> PropKind {
    match p {
        Some(PropValue::Bool(_)) => PropKind::Bool,
        Some(PropValue::I8(_)) => PropKind::I8,
        Some(PropValue::U8(_)) => PropKind::U8,
        Some(PropValue::I32(_)) => PropKind::I32,
        Some(PropValue::U32(_)) => PropKind::U32,
        Some(PropValue::I64(_)) => PropKind::I64,
        Some(PropValue::U64(_)) => PropKind::U64,
        Some(PropValue::F32(_)) => PropKind::F32,
        Some(PropValue::F64(_)) => PropKind::F64,
        _ => PropKind::Str,
    }
}

/// The value of a property in a column of its own type; nothing otherwise.
pub open spec fn bool_of(p: Option<PropValue>) -> Option<bool> {
    match p {
        Some(PropValue::Bool(v)) => v,
        _ => None,
    }
}

/// See [`bool_of`].
pub open spec fn i8_of(p: Option<PropValue>) -> Option<i8> {
    match p {
        Some(PropValue::I8(v)) => v,
        _ => None,
    }
}

/// See [`bool_of`].
pub open spec fn u8_of(p: Option<PropValue>) -> Option<u8> {
    match p {
        Some(PropValue::U8(v)) => v,
        _ => None,
    }
}

/// See [`bool_of`].
pub open spec fn i32_of(p: Option<PropValue>) -> Option<i32> {
    match p {
        Some(PropValue::I32(v)) => v,
        _ => None,
    }
}

/// See [`bool_of`].
pub open spec fn u32_of(p: Option<PropValue>) -> Option<u32> {
    match p {
        Some(PropValue::U32(v)) => v,
        _ => None,
    }
}

/// See [`bool_of`].
pub open spec fn i64_of(p: Option<PropValue>) -> Option<i64> {
    match p {
        Some(PropValue::I64(v)) => v,
        _ => None,
    }
}

/// See [`bool_of`].
pub open spec fn u64_of(p: Option<PropValue>) -> Option<u64> {
    match p {
        Some(PropValue::U64(v)) => v,
        _ => None,
    }
}

/// See [`bool_of`]; the bit pattern of an `f32`.
pub open spec fn f32_of(p: Option<PropValue>) -> Option<u32> {
    match p {
        Some(PropValue::F32(v)) => v,
        _ => None,
    }
}

/// See [`bool_of`]; the bit pattern of an `f64`.
pub open spec fn f64_of(p: Option<PropValue>) -> Option<u64> {
    match p {
        Some(PropValue::F64(v)) => v,
        _ => None,
    }
}

/// See [`bool_of`].
pub open spec fn str_of(p: Option<PropValue>) -> Option<Seq<char>> {
    match p {
        Some(PropValue::Str(v)) => match v {
            Some(s) => Some(s@),
            None => None,
        },
        _ => None,
    }
}

/// The values of column `col` read through `get`, features in `perm` order.
pub open spec fn column_values<T>(
    features: Seq<TileFeature>,
    perm: Seq<usize>,
    col: int,
    get: spec_fn(Option<PropValue>) -> Option<T>,
) -> Seq<Option<T>> {
    Seq::new(perm.len(), |i: int| get(prop_at(features[perm[i] as int], col)))
}

/// Every index of `perm` names a feature.
pub open spec fn perm_in(perm: Seq<usize>, n: nat) -> bool {
    forall|i: int| 0 <= i < perm.len() ==> #[trigger] perm[i] < n
}

/// The column type of the first property in column `col`, features in
/// `perm` order.
fn first_kind(features: &[TileFeature], perm: &[usize], col: usize) -> (k: PropKind)
    requires
        perm_in(perm@, features@.len()),
    ensures
        k == kind_of(first_prop(features@, perm@, col as int)),
{
    let n = perm.len();
    let mut i: usize = 0;
    assert(perm@.skip(0) =~= perm@);
    while i < n
        invariant
            i <= n,
            n == perm@.len(),
            perm_in(perm@, features@.len()),
            first_prop(features@, perm@, col as int) == first_prop(
                features@,
                perm@.skip(i as int),
                col as int,
            ),
        decreases n - i,
    {
        let f = &features[perm[i]];
        assert(perm@.skip(i as int)[0] == perm@[i as int]);
        if col < f.properties.len() {
            let k = match &f.properties[col] {
                PropValue::Bool(_) => PropKind::Bool,
                PropValue::I8(_) => PropKind::I8,
                PropValue::U8(_) => PropKind::U8,
                PropValue::I32(_) => PropKind::I32,
                PropValue::U32(_) => PropKind::U32,
                PropValue::I64(_) => PropKind::I64,
                PropValue::U64(_) => PropKind::U64,
                PropValue::F32(_) => PropKind::F32,
                PropValue::F64(_) => PropKind::F64,
                PropValue::Str(_) => PropKind::Str,
            };
            return k;
        }
        assert(perm@.skip(i as int).drop_first() =~= perm@.skip(i + 1));
        i = i + 1;
    }
    PropKind::Str
}

/// The values of column `col` read through `get`, features in `perm` order:
/// what `get` gives for the property there, nothing where there is none.
fn gather<T>(
    features: &[TileFeature],
    perm: &[usize],
    col: usize,
    get: impl Fn(&PropValue) -> Option<T>,
) -> (r: Vec<Option<T>>)
    requires
        perm_in(perm@, features@.len()),
        forall|p: &PropValue| #[trigger] call_requires(get, (p,)),
    ensures
        r@.len() == perm@.len(),
        forall|i: int|
            0 <= i < perm@.len() ==> match prop_at(features@[perm@[i] as int], col as int) {
                Some(p) => call_ensures(get, (&p,), #[trigger] r@[i]),
                None => r@[i] is None,
            },
{
    let n = perm.len();
    let mut r: Vec<Option<T>> = Vec::new();
    let mut i: usize = 0;
    while i < n
        invariant
            i <= n,
            n == perm@.len(),
            perm_in(perm@, features@.len()),
            forall|p: &PropValue| #[trigger] call_requires(get, (p,)),
            r@.len() == i,
            forall|j: int|
                0 <= j < i ==> match prop_at(features@[perm@[j] as int], col as int) {
                    Some(p) => call_ensures(get, (&p,), #[trigger] r@[j]),
                    None => r@[j] is None,
                },
        decreases n - i,
    {
        let f = &features[perm[i]];
        if col < f.properties.len() {
            let v = get(&f.properties[col]);
            r.push(v);
        } else {
            r.push(None);
        }
        i = i + 1;
    }
    r
}

/// Whether some value is missing.
fn any_missing<T>(vals: &Vec<Option<T>>) -> (b: bool)
    ensures
        b == exists|i: int| 0 <= i < vals@.len() && #[trigger] vals@[i] is None,
{
    let n = vals.len();
    let mut i: usize = 0;
    while i < n
        invariant
            i <= n,
            n == vals@.len(),
            forall|j: int| 0 <= j < i ==> #[trigger] vals@[j] is Some,
        decreases n - i,
    {
        if vals[i].is_none() {
            assert(vals@[i as int] is None);
            return true;
        }
        i = i + 1;
    }
    false
}

/// The values of a column where none is missing.
fn unwrap_all<T>(vals: Vec<Option<T>>) -> (r: Vec<T>)
    requires
        forall|i: int| 0 <= i < vals@.len() ==> #[trigger] vals@[i] is Some,
    ensures
        all_present(r@) == vals@,
{
    let ghost orig = vals@;
    let mut vals = vals;
    let mut rev: Vec<T> = Vec::new();
    while vals.len() > 0
        invariant
            vals@.len() + rev@.len() == orig.len(),
            vals@ == orig.take(vals@.len() as int),
            forall|i: int| 0 <= i < orig.len() ==> #[trigger] orig[i] is Some,
            forall|i: int|
                0 <= i < rev@.len() ==> Some(#[trigger] rev@[i]) == orig[orig.len() - 1 - i],
        decreases vals@.len(),
    {
        let v = vals.pop().unwrap();
        let ghost k = vals@.len() as int;
        assert(orig[k] is Some);
        match v {
            Some(x) => rev.push(x),
            None => {},
        }
        assert(vals@ =~= orig.take(vals@.len() as int));
    }
    let mut r: Vec<T> = Vec::new();
    while rev.len() > 0
        invariant
            r@.len() + rev@.len() == orig.len(),
            forall|i: int|
                0 <= i < rev@.len() ==> Some(#[trigger] rev@[i]) == orig[orig.len() - 1 - i],
            forall|i: int| 0 <= i < r@.len() ==> Some(#[trigger] r@[i]) == orig[i],
        decreases rev@.len(),
    {
        let x = rev.pop().unwrap();
        r.push(x);
    }
    assert(all_present(r@) =~= orig);
    r
}

/// The value of a property in a column of its own type; nothing otherwise.
fn bool_value(p: &PropValue) -> (r: Option<bool>)
    ensures
        r == bool_of(Some(*p)),
{
    match p {
        PropValue::Bool(v) => *v,
        _ => None,
    }
}

/// The value of a property in a column of its own type; nothing otherwise.
fn i8_value(p: &PropValue) -> (r: Option<i8>)
    ensures
        r == i8_of(Some(*p)),
{
    match p {
        PropValue::I8(v) => *v,
        _ => None,
    }
}

/// The value of a property in a column of its own type; nothing otherwise.
fn u8_value(p: &PropValue) -> (r: Option<u8>)
    ensures
        r == u8_of(Some(*p)),
{
    match p {
        PropValue::U8(v) => *v,
        _ => None,
    }
}

/// The value of a property in a column of its own type; nothing otherwise.
fn i32_value(p: &PropValue) -> (r: Option<i32>)
    ensures
        r == i32_of(Some(*p)),
{
    match p {
        PropValue::I32(v) => *v,
        _ => None,
    }
}

/// The value of a property in a column of its own type; nothing otherwise.
fn u32_value(p: &PropValue) -> (r: Option<u32>)
    ensures
        r == u32_of(Some(*p)),
{
    match p {
        PropValue::U32(v) => *v,
        _ => None,
    }
}

/// The value of a property in a column of its own type; nothing otherwise.
fn i64_value(p: &PropValue) -> (r: Option<i64>)
    ensures
        r == i64_of(Some(*p)),
{
    match p {
        PropValue::I64(v) => *v,
        _ => None,
    }
}

/// The value of a property in a column of its own type; nothing otherwise.
fn u64_value(p: &PropValue) -> (r: Option<u64>)
    ensures
        r == u64_of(Some(*p)),
{
    match p {
        PropValue::U64(v) => *v,
        _ => None,
    }
}

/// The value of a property in a column of its own type; nothing otherwise.
fn f32_value(p: &PropValue) -> (r: Option<u32>)
    ensures
        r == f32_of(Some(*p)),
{
    match p {
        PropValue::F32(v) => *v,
        _ => None,
    }
}

/// The value of a property in a column of its own type; nothing otherwise.
fn f64_value(p: &PropValue) -> (r: Option<u64>)
    ensures
        r == f64_of(Some(*p)),
{
    match p {
        PropValue::F64(v) => *v,
        _ => None,
    }
}

/// The value of a property in a string column; nothing otherwise.
fn str_value(p: &PropValue) -> (r: Option<String>)
    ensures
        match r {
            Some(s) => Some(s@),
            None => None::<Seq<char>>,
        } == str_of(Some(*p)),
{
    match p {
        PropValue::Str(v) => match v {
            Some(s) => Some(s.clone()),
            None => None,
        },
        _ => None,
    }
}

/// Builds the property column `name` from column `col` of the features in
/// `perm` order. Its type is that of the first property found in the
/// column (a string column when there is none); each value is the feature's
/// value when its property has that type, missing otherwise. The column
/// marks values as optional only when some value is missing.
pub fn build_column_permuted(
    name: String,
    col: usize,
    features: &[TileFeature],
    perm: &[usize],
) -> (r: StagedProperty)
    requires
        perm_in(perm@, features@.len()),
    ensures
        match kind_of(first_prop(features@, perm@, col as int)) {
            PropKind::Bool => r matches StagedProperty::Bool(c) && c.name == name && c.values@
                == column_values(features@, perm@, col as int, |p: Option<PropValue>| bool_of(p)),
            PropKind::I8 => r matches StagedProperty::I8(c) && c.name == name && c.values@
                == column_values(features@, perm@, col as int, |p: Option<PropValue>| i8_of(p)),
            PropKind::U8 => r matches StagedProperty::U8(c) && c.name == name && c.values@
                == column_values(features@, perm@, col as int, |p: Option<PropValue>| u8_of(p)),
            PropKind::I32 => r matches StagedProperty::I32(c) && c.name == name && c.values@
                == column_values(features@, perm@, col as int, |p: Option<PropValue>| i32_of(p)),
            PropKind::U32 => r matches StagedProperty::U32(c) && c.name == name && c.values@
                == column_values(features@, perm@, col as int, |p: Option<PropValue>| u32_of(p)),
            PropKind::I64 => r matches StagedProperty::I64(c) && c.name == name && c.values@
                == column_values(features@, perm@, col as int, |p: Option<PropValue>| i64_of(p)),
            PropKind::U64 => r matches StagedProperty::U64(c) && c.name == name && c.values@
                == column_values(features@, perm@, col as int, |p: Option<PropValue>| u64_of(p)),
            PropKind::F32 => r matches StagedProperty::F32(c) && c.name == name && c.values@
                == column_values(features@, perm@, col as int, |p: Option<PropValue>| f32_of(p)),
            PropKind::F64 => r matches StagedProperty::F64(c) && c.name == name && c.values@
                == column_values(features@, perm@, col as int, |p: Option<PropValue>| f64_of(p)),
            PropKind::Str => r matches StagedProperty::Str(c) && c.name == name && str_values(
                c.values@,
            ) == column_values(features@, perm@, col as int, |p: Option<PropValue>| str_of(p)),
        },
{
    let ghost fs = features@;
    let ghost ps = perm@;
    let ghost ci = col as int;
    match first_kind(features, perm, col) {
        PropKind::Bool => {
            let vals = gather(features, perm, col, bool_value);
            assert(vals@ =~= column_values(fs, ps, ci, |p: Option<PropValue>| bool_of(p)));
            if any_missing(&vals) {
                StagedProperty::opt_bool(name, vals)
            } else {
                StagedProperty::bool(name, unwrap_all(vals))
            }
        },
        PropKind::I8 => {
            let vals = gather(features, perm, col, i8_value);
            assert(vals@ =~= column_values(fs, ps, ci, |p: Option<PropValue>| i8_of(p)));
            if any_missing(&vals) {
                StagedProperty::opt_i8(name, vals)
            } else {
                StagedProperty::i8(name, unwrap_all(vals))
            }
        },
        PropKind::U8 => {
            let vals = gather(features, perm, col, u8_value);
            assert(vals@ =~= column_values(fs, ps, ci, |p: Option<PropValue>| u8_of(p)));
            if any_missing(&vals) {
                StagedProperty::opt_u8(name, vals)
            } else {
                StagedProperty::u8(name, unwrap_all(vals))
            }
        },
        PropKind::I32 => {
            let vals = gather(features, perm, col, i32_value);
            assert(vals@ =~= column_values(fs, ps, ci, |p: Option<PropValue>| i32_of(p)));
            if any_missing(&vals) {
                StagedProperty::opt_i32(name, vals)
            } else {
                StagedProperty::i32(name, unwrap_all(vals))
            }
        },
        PropKind::U32 => {
            let vals = gather(features, perm, col, u32_value);
            assert(vals@ =~= column_values(fs, ps, ci, |p: Option<PropValue>| u32_of(p)));
            if any_missing(&vals) {
                StagedProperty::opt_u32(name, vals)
            } else {
                StagedProperty::u32(name, unwrap_all(vals))
            }
        },
        PropKind::I64 => {
            let vals = gather(features, perm, col, i64_value);
            assert(vals@ =~= column_values(fs, ps, ci, |p: Option<PropValue>| i64_of(p)));
            if any_missing(&vals) {
                StagedProperty::opt_i64(name, vals)
            } else {
                StagedProperty::i64(name, unwrap_all(vals))
            }
        },
        PropKind::U64 => {
            let vals = gather(features, perm, col, u64_value);
            assert(vals@ =~= column_values(fs, ps, ci, |p: Option<PropValue>| u64_of(p)));
            if any_missing(&vals) {
                StagedProperty::opt_u64(name, vals)
            } else {
                StagedProperty::u64(name, unwrap_all(vals))
            }
        },
        PropKind::F32 => {
            let vals = gather(features, perm, col, f32_value);
            assert(vals@ =~= column_values(fs, ps, ci, |p: Option<PropValue>| f32_of(p)));
            if any_missing(&vals) {
                StagedProperty::opt_f32(name, vals)
            } else {
                StagedProperty::f32_bits(name, unwrap_all(vals))
            }
        },
        PropKind::F64 => {
            let vals = gather(features, perm, col, f64_value);
            assert(vals@ =~= column_values(fs, ps, ci, |p: Option<PropValue>| f64_of(p)));
            if any_missing(&vals) {
                StagedProperty::opt_f64(name, vals)
            } else {
                StagedProperty::f64_bits(name, unwrap_all(vals))
            }
        },
        PropKind::Str => {
            let vals = gather(features, perm, col, str_value);
            assert(str_values(vals@) =~= column_values(
                fs,
                ps,
                ci,
                |p: Option<PropValue>| str_of(p),
            ));
            if any_missing(&vals) {
                StagedProperty::opt_str(name, vals)
            } else {
                StagedProperty::str(name, unwrap_all(vals))
            }
        },
    }
}

/// Two property columns of the same type, name and values.
pub open spec fn same_property(a: StagedProperty, b: StagedProperty) -> bool {
    match (a, b) {
        (StagedProperty::Bool(x), StagedProperty::Bool(y)) => x.name == y.name && x.values@
            == y.values@,
        (StagedProperty::I8(x), StagedProperty::I8(y)) => x.name == y.name && x.values@
            == y.values@,
        (StagedProperty::U8(x), StagedProperty::U8(y)) => x.name == y.name && x.values@
            == y.values@,
        (StagedProperty::I32(x), StagedProperty::I32(y)) => x.name == y.name && x.values@
            == y.values@,
        (StagedProperty::U32(x), StagedProperty::U32(y)) => x.name == y.name && x.values@
            == y.values@,
        (StagedProperty::I64(x), StagedProperty::I64(y)) => x.name == y.name && x.values@
            == y.values@,
        (StagedProperty::U64(x), StagedProperty::U64(y)) => x.name == y.name && x.values@
            == y.values@,
        (StagedProperty::F32(x), StagedProperty::F32(y)) => x.name == y.name && x.values@
            == y.values@,
        (StagedProperty::F64(x), StagedProperty::F64(y)) => x.name == y.name && x.values@
            == y.values@,
        (StagedProperty::Str(x), StagedProperty::Str(y)) => x.name == y.name && str_values(
            x.values@,
        ) == str_values(y.values@),
        _ => false,
    }
}

/// A copy of optional values.
fn copy_values<T: Copy>(v: &Vec<Option<T>>) -> (r: Vec<Option<T>>)
    ensures
        r@ == v@,
{
    let mut r: Vec<Option<T>> = Vec::new();
    let mut i: usize = 0;
    while i < v.len()
        invariant
            i <= v@.len(),
            r@ == v@.take(i as int),
        decreases v@.len() - i,
    {
        r.push(v[i]);
        i = i + 1;
        assert(r@ =~= v@.take(i as int));
    }
    assert(v@.take(v@.len() as int) =~= v@);
    r
}

/// A copy of optional strings.
fn copy_strings(v: &Vec<Option<String>>) -> (r: Vec<Option<String>>)
    ensures
        str_values(r@) == str_values(v@),
{
    let mut r: Vec<Option<String>> = Vec::new();
    let mut i: usize = 0;
    while i < v.len()
        invariant
            i <= v@.len(),
            str_values(r@) == str_values(v@.take(i as int)),
        decreases v@.len() - i,
    {
        let ghost before = r@;
        let x = match &v[i] {
            Some(s) => Some(s.clone()),
            None => None,
        };
        r.push(x);
        i = i + 1;
        assert(str_values(r@) =~= str_values(before).push(str_values(v@)[i - 1]));
        assert(str_values(v@.take(i as int)) =~= str_values(v@.take(i - 1)).push(
            str_values(v@)[i - 1],
        ));
    }
    assert(v@.take(v@.len() as int) =~= v@);
    r
}

/// A copy of a property column.
fn copy_property(p: &StagedProperty) -> (q: StagedProperty)
    ensures
        same_property(q, *p),
{
    match p {
        StagedProperty::Bool(c) => StagedProperty::Bool(
            ScalarColumn { name: c.name.clone(), values: copy_values(&c.values) },
        ),
        StagedProperty::I8(c) => StagedProperty::I8(
            ScalarColumn { name: c.name.clone(), values: copy_values(&c.values) },
        ),
        StagedProperty::U8(c) => StagedProperty::U8(
            ScalarColumn { name: c.name.clone(), values: copy_values(&c.values) },
        ),
        StagedProperty::I32(c) => StagedProperty::I32(
            ScalarColumn { name: c.name.clone(), values: copy_values(&c.values) },
        ),
        StagedProperty::U32(c) => StagedProperty::U32(
            ScalarColumn { name: c.name.clone(), values: copy_values(&c.values) },
        ),
        StagedProperty::I64(c) => StagedProperty::I64(
            ScalarColumn { name: c.name.clone(), values: copy_values(&c.values) },
        ),
        StagedProperty::U64(c) => StagedProperty::U64(
            ScalarColumn { name: c.name.clone(), values: copy_values(&c.values) },
        ),
        StagedProperty::F32(c) => StagedProperty::F32(
            ScalarColumn { name: c.name.clone(), values: copy_values(&c.values) },
        ),
        StagedProperty::F64(c) => StagedProperty::F64(
            ScalarColumn { name: c.name.clone(), values: copy_values(&c.values) },
        ),
        StagedProperty::Str(c) => StagedProperty::Str(
            ScalarColumn { name: c.name.clone(), values: copy_strings(&c.values) },
        ),
    }
}

/// The geometries of the features in `perm` order.
pub open spec fn permuted_geoms(features: Seq<TileFeature>, perm: Seq<usize>) -> Seq<Geom32> {
    Seq::new(perm.len(), |i: int| features[perm[i] as int].geometry)
}

/// The cached column for `col`, if any.
pub open spec fn cached_column(cache: Map<usize, StagedProperty>, col: int) -> Option<
    StagedProperty,
> {
    if 0 <= col && cache.contains_key(col as usize) {
        Some(cache[col as usize])
    } else {
        None
    }
}

/// `p` is column `col` built from the features in `perm` order, as
/// [`build_column_permuted`] builds it.
pub open spec fn built_column(
    p: StagedProperty,
    name: String,
    features: Seq<TileFeature>,
    perm: Seq<usize>,
    col: int,
) -> bool {
    match kind_of(first_prop(features, perm, col)) {
        PropKind::Bool => p matches StagedProperty::Bool(c) && c.name == name && c.values@
            == column_values(features, perm, col, |q: Option<PropValue>| bool_of(q)),
        PropKind::I8 => p matches StagedProperty::I8(c) && c.name == name && c.values@
            == column_values(features, perm, col, |q: Option<PropValue>| i8_of(q)),
        PropKind::U8 => p matches StagedProperty::U8(c) && c.name == name && c.values@
            == column_values(features, perm, col, |q: Option<PropValue>| u8_of(q)),
        PropKind::I32 => p matches StagedProperty::I32(c) && c.name == name && c.values@
            == column_values(features, perm, col, |q: Option<PropValue>| i32_of(q)),
        PropKind::U32 => p matches StagedProperty::U32(c) && c.name == name && c.values@
            == column_values(features, perm, col, |q: Option<PropValue>| u32_of(q)),
        PropKind::I64 => p matches StagedProperty::I64(c) && c.name == name && c.values@
            == column_values(features, perm, col, |q: Option<PropValue>| i64_of(q)),
        PropKind::U64 => p matches StagedProperty::U64(c) && c.name == name && c.values@
            == column_values(features, perm, col, |q: Option<PropValue>| u64_of(q)),
        PropKind::F32 => p matches StagedProperty::F32(c) && c.name == name && c.values@
            == column_values(features, perm, col, |q: Option<PropValue>| f32_of(q)),
        PropKind::F64 => p matches StagedProperty::F64(c) && c.name == name && c.values@
            == column_values(features, perm, col, |q: Option<PropValue>| f64_of(q)),
        PropKind::Str => p matches StagedProperty::Str(c) && c.name == name && str_values(
            c.values@,
        ) == column_values(features, perm, col, |q: Option<PropValue>| str_of(q)),
    }
}

/// The ids of the features in `perm` order.
pub open spec fn permuted_ids(features: Seq<TileFeature>, perm: Seq<usize>) -> Seq<Option<u64>> {
    Seq::new(perm.len(), |i: int| features[perm[i] as int].id)
}

/// Some feature has an id.
pub open spec fn any_id(features: Seq<TileFeature>) -> bool {
    exists|i: int| 0 <= i < features.len() && #[trigger] features[i].id is Some
}

/// Stages features read in `perm` order: the geometry column built from
/// their geometries, the ids when some feature has one, and one property
/// column per name, taken from `invariant_cols` where cached there and built
/// from the features otherwise.
pub fn stage_permuted(
    name: String,
    extent: u32,
    features: &[TileFeature],
    property_names: &[String],
    perm: &[usize],
    invariant_cols: &HashMap<usize, StagedProperty>,
) -> (r: StagedLayer01)
    requires
        features@.len() > 0,
        perm_in(perm@, features@.len()),
        push_all_spec(empty_model(), permuted_geoms(features@, perm@), Seq::empty()) is Some,
    ensures
        r.name == name,
        r.extent == extent,
        r.geometry@ == push_all_spec(
            empty_model(),
            permuted_geoms(features@, perm@),
            Seq::empty(),
        ).unwrap(),
        any_id(features@) ==> (r.id matches Some(v) && v.0@ == permuted_ids(features@, perm@)),
        !any_id(features@) ==> r.id is None,
        r.properties@.len() == property_names@.len(),
        forall|c: int|
            0 <= c < property_names@.len() ==> match cached_column(invariant_cols@, c) {
                Some(p) => same_property(#[trigger] r.properties@[c], p),
                None => built_column(r.properties@[c], property_names@[c], features@, perm@, c),
            },
{
    let ghost gs = permuted_geoms(features@, perm@);
    let ghost e = Seq::<EarcutRaw>::empty();
    let none: Vec<EarcutRaw> = Vec::new();
    assert(none@ =~= e);
    let mut geometry = GeometryValues::default();
    let n = perm.len();
    let mut i: usize = 0;
    assert(gs.take(0) =~= Seq::<Geom32>::empty());
    while i < n
        invariant
            i <= n,
            n == perm@.len(),
            perm_in(perm@, features@.len()),
            gs == permuted_geoms(features@, perm@),
            none@ == e,
            e == Seq::<EarcutRaw>::empty(),
            push_all_spec(empty_model(), gs, e) is Some,
            geometry@ == push_all_spec(empty_model(), gs.take(i as int), e).unwrap(),
            geometry@.triangles is None,
        decreases n - i,
    {
        proof {
            assert(e.take(0) =~= e);
            assert(e.skip(0) =~= e);
            crate::model::lemma_push_all_prefix(empty_model(), gs, e, i + 1);
            assert(gs.take(i + 1).subrange(0, i as int) =~= gs.take(i as int));
            assert(gs.take(i + 1)[i as int] == gs[i as int]);
            crate::model::lemma_push_keeps_tessellation(
                geometry@,
                gs[i as int],
                e,
            );
        }
        geometry.push_geom(&features[perm[i]].geometry, none.as_slice());
        i = i + 1;
    }
    assert(gs.take(n as int) =~= gs);
    let mut has_id = false;
    let mut j: usize = 0;
    while j < features.len()
        invariant
            j <= features@.len(),
            has_id == exists|k: int| 0 <= k < j && #[trigger] features@[k].id is Some,
        decreases features@.len() - j,
    {
        if features[j].id.is_some() {
            has_id = true;
        }
        j = j + 1;
    }
    let id = if has_id {
        let mut ids: Vec<Option<u64>> = Vec::new();
        let mut k: usize = 0;
        while k < n
            invariant
                k <= n,
                n == perm@.len(),
                perm_in(perm@, features@.len()),
                ids@ == permuted_ids(features@, perm@).take(k as int),
            decreases n - k,
        {
            ids.push(features[perm[k]].id);
            k = k + 1;
            assert(ids@ =~= permuted_ids(features@, perm@).take(k as int));
        }
        assert(permuted_ids(features@, perm@).take(n as int) =~= permuted_ids(features@, perm@));
        Some(IdValues(ids))
    } else {
        None
    };
    let mut properties: Vec<StagedProperty> = Vec::new();
    let m = property_names.len();
    let mut c: usize = 0;
    while c < m
        invariant
            c <= m,
            m == property_names@.len(),
            perm_in(perm@, features@.len()),
            properties@.len() == c,
            forall|q: int|
                0 <= q < c ==> match cached_column(invariant_cols@, q) {
                    Some(p) => same_property(#[trigger] properties@[q], p),
                    None => built_column(properties@[q], property_names@[q], features@, perm@, q),
                },
        decreases m - c,
    {
        let p = match invariant_cols.get(&c) {
            Some(cached) => copy_property(cached),
            None => build_column_permuted(property_names[c].clone(), c, features, perm),
        };
        properties.push(p);
        c = c + 1;
    }
    StagedLayer01 { name, extent, id, geometry, properties }
}

} // verus!
