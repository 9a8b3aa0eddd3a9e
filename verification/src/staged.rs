//! Columnar layers staged for encoding, and the encoder configuration.
use vstd::prelude::*;

use crate::values::GeometryValues;

verus! {

/// Optional feature ids, one per feature.
#[derive(Debug)]
pub struct IdValues(pub Vec<Option<u64>>);

/// A named column of optional values.
#[derive(Debug)]
pub struct ScalarColumn<T> {
    pub name: String,
    pub values: Vec<Option<T>>,
}

/// A property column staged for encoding.
///
/// Floating-point columns hold the bit patterns of their values (`f32`
/// values as `u32`, `f64` values as `u64`).
#[derive(Debug)]
pub enum StagedProperty {
    Bool(ScalarColumn<bool>),
    I8(ScalarColumn<i8>),
    U8(ScalarColumn<u8>),
    I32(ScalarColumn<i32>),
    U32(ScalarColumn<u32>),
    I64(ScalarColumn<i64>),
    U64(ScalarColumn<u64>),
    F32(ScalarColumn<u32>),
    F64(ScalarColumn<u64>),
    Str(ScalarColumn<String>),
}

/// Every value of `vs`, each marked present.
pub open spec fn all_present<T>(vs: Seq<T>) -> Seq<Option<T>> {
    Seq::new(vs.len(), |i: int| Some(vs[i]))
}

/// The values of `vs`, each marked present.
fn present_values<T>(vs: Vec<T>) -> (r: Vec<Option<T>>)
    ensures
        r@ == all_present(vs@),
{
    let ghost orig = vs@;
    let mut vs = vs;
    let mut rev: Vec<Option<T>> = Vec::new();
    while vs.len() > 0
        invariant
            vs@.len() + rev@.len() == orig.len(),
            vs@ == orig.take(vs@.len() as int),
            forall|i: int|
                0 <= i < rev@.len() ==> #[trigger] rev@[i] == Some(orig[orig.len() - 1 - i]),
        decreases vs@.len(),
    {
        let v = vs.pop().unwrap();
        rev.push(Some(v));
        assert(vs@ =~= orig.take(vs@.len() as int));
    }
    let mut r: Vec<Option<T>> = Vec::new();
    while rev.len() > 0
        invariant
            r@.len() + rev@.len() == orig.len(),
            forall|i: int|
                0 <= i < rev@.len() ==> #[trigger] rev@[i] == Some(orig[orig.len() - 1 - i]),
            forall|i: int| 0 <= i < r@.len() ==> #[trigger] r@[i] == Some(orig[i]),
        decreases rev@.len(),
    {
        let v = rev.pop().unwrap();
        r.push(v);
    }
    assert(r@ =~= all_present(orig));
    r
}

impl StagedProperty {
    /// The column name.
    pub open spec fn spec_name(&self) -> Seq<char> {
        match self {
            StagedProperty::Bool(c) => c.name@,
            StagedProperty::I8(c) => c.name@,
            StagedProperty::U8(c) => c.name@,
            StagedProperty::I32(c) => c.name@,
            StagedProperty::U32(c) => c.name@,
            StagedProperty::I64(c) => c.name@,
            StagedProperty::U64(c) => c.name@,
            StagedProperty::F32(c) => c.name@,
            StagedProperty::F64(c) => c.name@,
            StagedProperty::Str(c) => c.name@,
        }
    }

    /// The column name.
    pub fn name(&self) -> (r: &str)
        ensures
            r@ == self.spec_name(),
    {
        match self {
            StagedProperty::Bool(c) => c.name.as_str(),
            StagedProperty::I8(c) => c.name.as_str(),
            StagedProperty::U8(c) => c.name.as_str(),
            StagedProperty::I32(c) => c.name.as_str(),
            StagedProperty::U32(c) => c.name.as_str(),
            StagedProperty::I64(c) => c.name.as_str(),
            StagedProperty::U64(c) => c.name.as_str(),
            StagedProperty::F32(c) => c.name.as_str(),
            StagedProperty::F64(c) => c.name.as_str(),
            StagedProperty::Str(c) => c.name.as_str(),
        }
    }

    /// A boolean column with every value present.
    pub fn bool(name: String, values: Vec<bool>) -> (p: StagedProperty)
        ensures
            p matches StagedProperty::Bool(c) && c.name == name && c.values@ == all_present(values@),
    {
        StagedProperty::Bool(ScalarColumn { name, values: present_values(values) })
    }

    /// A boolean column with optional values.
    pub fn opt_bool(name: String, values: Vec<Option<bool>>) -> (p: StagedProperty)
        ensures
            p matches StagedProperty::Bool(c) && c.name == name && c.values == values,
    {
        StagedProperty::Bool(ScalarColumn { name, values })
    }

    /// An `i8` column with every value present.
    pub fn i8(name: String, values: Vec<i8>) -> (p: StagedProperty)
        ensures
            p matches StagedProperty::I8(c) && c.name == name && c.values@ == all_present(values@),
    {
        StagedProperty::I8(ScalarColumn { name, values: present_values(values) })
    }

    /// An `i8` column with optional values.
    pub fn opt_i8(name: String, values: Vec<Option<i8>>) -> (p: StagedProperty)
        ensures
            p matches StagedProperty::I8(c) && c.name == name && c.values == values,
    {
        StagedProperty::I8(ScalarColumn { name, values })
    }

    /// A `u8` column with every value present.
    pub fn u8(name: String, values: Vec<u8>) -> (p: StagedProperty)
        ensures
            p matches StagedProperty::U8(c) && c.name == name && c.values@ == all_present(values@),
    {
        StagedProperty::U8(ScalarColumn { name, values: present_values(values) })
    }

    /// A `u8` column with optional values.
    pub fn opt_u8(name: String, values: Vec<Option<u8>>) -> (p: StagedProperty)
        ensures
            p matches StagedProperty::U8(c) && c.name == name && c.values == values,
    {
        StagedProperty::U8(ScalarColumn { name, values })
    }

    /// An `i32` column with every value present.
    pub fn i32(name: String, values: Vec<i32>) -> (p: StagedProperty)
        ensures
            p matches StagedProperty::I32(c) && c.name == name && c.values@ == all_present(values@),
    {
        StagedProperty::I32(ScalarColumn { name, values: present_values(values) })
    }

    /// An `i32` column with optional values.
    pub fn opt_i32(name: String, values: Vec<Option<i32>>) -> (p: StagedProperty)
        ensures
            p matches StagedProperty::I32(c) && c.name == name && c.values == values,
    {
        StagedProperty::I32(ScalarColumn { name, values })
    }

    /// A `u32` column with every value present.
    pub fn u32(name: String, values: Vec<u32>) -> (p: StagedProperty)
        ensures
            p matches StagedProperty::U32(c) && c.name == name && c.values@ == all_present(values@),
    {
        StagedProperty::U32(ScalarColumn { name, values: present_values(values) })
    }

    /// A `u32` column with optional values.
    pub fn opt_u32(name: String, values: Vec<Option<u32>>) -> (p: StagedProperty)
        ensures
            p matches StagedProperty::U32(c) && c.name == name && c.values == values,
    {
        StagedProperty::U32(ScalarColumn { name, values })
    }

    /// An `i64` column with every value present.
    pub fn i64(name: String, values: Vec<i64>) -> (p: StagedProperty)
        ensures
            p matches StagedProperty::I64(c) && c.name == name && c.values@ == all_present(values@),
    {
        StagedProperty::I64(ScalarColumn { name, values: present_values(values) })
    }

    /// An `i64` column with optional values.
    pub fn opt_i64(name: String, values: Vec<Option<i64>>) -> (p: StagedProperty)
        ensures
            p matches StagedProperty::I64(c) && c.name == name && c.values == values,
    {
        StagedProperty::I64(ScalarColumn { name, values })
    }

    /// A `u64` column with every value present.
    pub fn u64(name: String, values: Vec<u64>) -> (p: StagedProperty)
        ensures
            p matches StagedProperty::U64(c) && c.name == name && c.values@ == all_present(values@),
    {
        StagedProperty::U64(ScalarColumn { name, values: present_values(values) })
    }

    /// A `u64` column with optional values.
    pub fn opt_u64(name: String, values: Vec<Option<u64>>) -> (p: StagedProperty)
        ensures
            p matches StagedProperty::U64(c) && c.name == name && c.values == values,
    {
        StagedProperty::U64(ScalarColumn { name, values })
    }

    /// An `f32` column, given by bit patterns, with every value present.
    pub fn f32_bits(name: String, bits: Vec<u32>) -> (p: StagedProperty)
        ensures
            p matches StagedProperty::F32(c) && c.name == name && c.values@ == all_present(bits@),
    {
        StagedProperty::F32(ScalarColumn { name, values: present_values(bits) })
    }

    /// An `f32` column, given by bit patterns, with optional values.
    pub fn opt_f32(name: String, bits: Vec<Option<u32>>) -> (p: StagedProperty)
        ensures
            p matches StagedProperty::F32(c) && c.name == name && c.values == bits,
    {
        StagedProperty::F32(ScalarColumn { name, values: bits })
    }

    /// An `f64` column, given by bit patterns, with every value present.
    pub fn f64_bits(name: String, bits: Vec<u64>) -> (p: StagedProperty)
        ensures
            p matches StagedProperty::F64(c) && c.name == name && c.values@ == all_present(bits@),
    {
        StagedProperty::F64(ScalarColumn { name, values: present_values(bits) })
    }

    /// An `f64` column, given by bit patterns, with optional values.
    pub fn opt_f64(name: String, bits: Vec<Option<u64>>) -> (p: StagedProperty)
        ensures
            p matches StagedProperty::F64(c) && c.name == name && c.values == bits,
    {
        StagedProperty::F64(ScalarColumn { name, values: bits })
    }

    /// A string column with every value present.
    pub fn str(name: String, values: Vec<String>) -> (p: StagedProperty)
        ensures
            p matches StagedProperty::Str(c) && c.name == name && c.values@ == all_present(values@),
    {
        StagedProperty::Str(ScalarColumn { name, values: present_values(values) })
    }

    /// A string column with optional values.
    pub fn opt_str(name: String, values: Vec<Option<String>>) -> (p: StagedProperty)
        ensures
            p matches StagedProperty::Str(c) && c.name == name && c.values == values,
    {
        StagedProperty::Str(ScalarColumn { name, values })
    }
}

/// A layer staged for encoding: named, with an extent, optional ids, the
/// geometry column and the property columns.
#[derive(Debug)]
pub struct StagedLayer01 {
    pub name: String,
    pub extent: u32,
    pub id: Option<IdValues>,
    pub geometry: GeometryValues,
    pub properties: Vec<StagedProperty>,
}

/// Encoder options.
#[derive(Debug, Clone, Copy, PartialEq, Eq, Structural)]
pub struct EncoderConfig {
    pub tessellate: bool,
    pub try_spatial_morton_sort: bool,
    pub try_spatial_hilbert_sort: bool,
    pub try_id_sort: bool,
    pub allow_fsst: bool,
    pub allow_fpf: bool,
    pub allow_shared_dict: bool,
}

impl Default for EncoderConfig {
    /// All optimizations enabled, tessellation off.
    fn default() -> (c: EncoderConfig)
        ensures
            c == (EncoderConfig {
                tessellate: false,
                try_spatial_morton_sort: true,
                try_spatial_hilbert_sort: true,
                try_id_sort: true,
                allow_fsst: true,
                allow_fpf: true,
                allow_shared_dict: true,
            }),
    {
        EncoderConfig {
            tessellate: false,
            try_spatial_morton_sort: true,
            try_spatial_hilbert_sort: true,
            try_id_sort: true,
            allow_fsst: true,
            allow_fpf: true,
            allow_shared_dict: true,
        }
    }
}

/// The orders in which features can be sorted before encoding.
#[derive(Debug, Clone, Copy, PartialEq, Eq, Structural)]
pub enum SortStrategy {
    Unsorted,
    SpatialMorton,
    SpatialHilbert,
    Id,
}

/// Feature count below which spatial sorting is always tried.
pub const SORT_TRIAL_THRESHOLD: usize = 512;

/// The strategies to try, in order: unsorted; the enabled spatial sorts when
/// spatial sorting is enabled and `spatial_ok`; id sorting when enabled.
pub open spec fn sort_strategies(cfg: EncoderConfig, spatial_ok: bool) -> Seq<SortStrategy> {
    let try_spatial = cfg.try_spatial_morton_sort || cfg.try_spatial_hilbert_sort;
    seq![SortStrategy::Unsorted] + (if try_spatial && spatial_ok && cfg.try_spatial_morton_sort {
        seq![SortStrategy::SpatialMorton]
    } else {
        Seq::empty()
    }) + (if try_spatial && spatial_ok && cfg.try_spatial_hilbert_sort {
        seq![SortStrategy::SpatialHilbert]
    } else {
        Seq::empty()
    }) + (if cfg.try_id_sort {
        seq![SortStrategy::Id]
    } else {
        Seq::empty()
    })
}

/// Builds the list of sort strategies to try for a layer of `feature_count`
/// features. Spatial sorts are tried for small layers, and for larger ones
/// only when `spatial_likely` (asked only then) says they are likely to help.
pub fn collect_sort_strategies<F: FnOnce() -> bool>(
    cfg: EncoderConfig,
    feature_count: usize,
    spatial_likely: F,
) -> (sorts: Vec<SortStrategy>)
    requires
        call_requires(spatial_likely, ()),
    ensures
        (cfg.try_spatial_morton_sort || cfg.try_spatial_hilbert_sort) && feature_count
            >= SORT_TRIAL_THRESHOLD ==> exists|r: bool|
            call_ensures(spatial_likely, (), r) && sorts@ == sort_strategies(cfg, r),
        !((cfg.try_spatial_morton_sort || cfg.try_spatial_hilbert_sort) && feature_count
            >= SORT_TRIAL_THRESHOLD) ==> sorts@ == sort_strategies(cfg, true),
        sorts@.len() > 0 && sorts@[0] == SortStrategy::Unsorted,
        sorts@.contains(SortStrategy::Id) == cfg.try_id_sort,
        !cfg.try_spatial_morton_sort ==> !sorts@.contains(SortStrategy::SpatialMorton),
        !cfg.try_spatial_hilbert_sort ==> !sorts@.contains(SortStrategy::SpatialHilbert),
        (cfg.try_spatial_morton_sort || cfg.try_spatial_hilbert_sort) && feature_count
            < SORT_TRIAL_THRESHOLD ==> sorts@.contains(SortStrategy::SpatialMorton)
            == cfg.try_spatial_morton_sort && sorts@.contains(SortStrategy::SpatialHilbert)
            == cfg.try_spatial_hilbert_sort,
{
    let mut sort_by: Vec<SortStrategy> = Vec::new();
    sort_by.push(SortStrategy::Unsorted);
    let try_spatial = cfg.try_spatial_morton_sort || cfg.try_spatial_hilbert_sort;
    let spatial_ok = if try_spatial {
        if feature_count < SORT_TRIAL_THRESHOLD {
            true
        } else {
            spatial_likely()
        }
    } else {
        false
    };
    if try_spatial && spatial_ok {
        if cfg.try_spatial_morton_sort {
            sort_by.push(SortStrategy::SpatialMorton);
        }
        if cfg.try_spatial_hilbert_sort {
            sort_by.push(SortStrategy::SpatialHilbert);
        }
    }
    if cfg.try_id_sort {
        sort_by.push(SortStrategy::Id);
    }
    assert(sort_by@ =~= sort_strategies(cfg, spatial_ok));
    if !try_spatial {
        assert(sort_strategies(cfg, spatial_ok) =~= sort_strategies(cfg, true));
    }
    proof {
        crate::laws::lemma_sort_strategies_follow_flags(cfg, spatial_ok);
    }
    sort_by
}

/// The index of the first smallest value: the trial that is kept when
/// encodings of several sort strategies are compared by total length (a later
/// trial replaces the best one only when strictly shorter).
pub fn best_trial(total_lens: &[usize]) -> (best: usize)
    requires
        total_lens@.len() > 0,
    ensures
        best < total_lens@.len(),
        forall|i: int| 0 <= i < total_lens@.len() ==> total_lens@[best as int] <= #[trigger] total_lens@[i],
        forall|i: int| 0 <= i < best ==> total_lens@[best as int] < #[trigger] total_lens@[i],
{
    let mut best: usize = 0;
    let mut i: usize = 1;
    while i < total_lens.len()
        invariant
            1 <= i <= total_lens@.len(),
            best < i,
            forall|j: int| 0 <= j < i ==> total_lens@[best as int] <= #[trigger] total_lens@[j],
            forall|j: int| 0 <= j < best ==> total_lens@[best as int] < #[trigger] total_lens@[j],
        decreases total_lens@.len() - i,
    {
        if total_lens[i] < total_lens[best] {
            best = i;
        }
        i = i + 1;
    }
    best
}

} // verus!
