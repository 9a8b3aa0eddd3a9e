//! Geometry columns as read from a tile, before decoding: the stream
//! metadata that tells how many features a column holds.
use vstd::prelude::*;

verus! {

/// Run-length metadata: the number of runs and the number of values they
/// expand to.
#[derive(Debug, Clone, Copy, PartialEq, Eq)]
pub struct RleMeta {
    pub runs: u32,
    pub num_rle_values: u32,
}

/// Morton (Z-order) metadata of a vertex dictionary.
#[derive(Debug, Clone, Copy, PartialEq, Eq)]
pub struct MortonMeta {
    pub num_bits: u32,
    pub coordinate_shift: u32,
}

/// Logical encoding of an integer stream (`Plain`: none applied).
#[derive(Debug, Clone, Copy, PartialEq, Eq)]
pub enum LogicalEncoding {
    Plain,
    Delta,
    DeltaRle(RleMeta),
    ComponentwiseDelta,
    Rle(RleMeta),
    Morton(MortonMeta),
    MortonDelta(MortonMeta),
    PseudoDecimal,
}

/// Metadata of one stream: its physical value count and logical encoding.
#[derive(Debug, Clone, Copy, PartialEq, Eq)]
pub struct StreamMeta {
    pub num_values: u32,
    pub logical: LogicalEncoding,
}

/// One stream: its metadata and its still-encoded bytes.
#[derive(Debug, Clone, PartialEq)]
pub struct RawStream {
    pub meta: StreamMeta,
    pub data: Vec<u8>,
}

/// A geometry column as read from a tile: the geometry-type stream first,
/// then the other streams.
#[derive(Debug, Clone, PartialEq)]
pub struct RawGeometry {
    pub meta: RawStream,
    pub items: Vec<RawStream>,
}

/// Number of logical values of a stream: the expanded count of a
/// run-length encoded stream, the physical count otherwise.
pub open spec fn logical_count(m: StreamMeta) -> u32 {
    match m.logical {
        LogicalEncoding::Rle(rle) => rle.num_rle_values,
        LogicalEncoding::DeltaRle(rle) => rle.num_rle_values,
        _ => m.num_values,
    }
}

impl RawGeometry {
    /// Number of features, read from the geometry-type stream's metadata
    /// without decoding: with run-length encoding the physical count is that
    /// of the runs, so the expanded count is taken.
    pub fn feature_count(&self) -> (n: u32)
        ensures
            n == logical_count(self.meta.meta),
    {
        match self.meta.meta.logical {
            LogicalEncoding::Rle(rle) | LogicalEncoding::DeltaRle(rle) => rle.num_rle_values,
            _ => self.meta.meta.num_values,
        }
    }
}

} // verus!
