//! The foreign-function surface: opaque handles over the layer and tile
//! encoders, byte-string names, empty slices standing for absent presence
//! masks, and errors carried as text.
pub use crate::column::MltColumnType;

use vstd::prelude::*;
use vstd::utf8::{decode_utf8, valid_utf8};

use crate::builder::{
    add_column_post, add_string_column_post, missing_geometry_text, set_geometries_post,
    set_ids_post, stageable, staged_from, with_presence,
};
use crate::staging::geometries_stageable;
use crate::column::elem_size;
use crate::staged::{all_present, EncoderConfig};
use crate::text::{lossy_string, str_from_diplomat, utf8_lossy};

verus! {

/// Error returned by encoder operations: a message.
#[derive(Debug)]
pub struct MltError(pub String);

/// Encoder configuration: created with [`MltEncoderConfig::new_default`],
/// then toggled field by field.
pub struct MltEncoderConfig {
    pub tessellate: bool,
    pub try_spatial_morton_sort: bool,
    pub try_spatial_hilbert_sort: bool,
    pub try_id_sort: bool,
    pub allow_fsst: bool,
    pub allow_fpf: bool,
    pub allow_shared_dict: bool,
}

/// An owned encoded byte buffer.
pub struct MltEncodedBuffer(pub Vec<u8>);

/// Layer encoder handle; empty once the layer has been consumed.
pub struct MltLayerEncoder(pub Option<crate::builder::MltLayerEncoder>);

/// Tile encoder handle; empty once the tile has been consumed.
pub struct MltTileEncoder(pub Option<crate::builder::MltTileEncoder>);

/// A slice, or nothing for an empty slice.
pub open spec fn opt_slice_spec<T>(s: &[T]) -> Option<Seq<T>> {
    if s@.len() == 0 {
        None
    } else {
        Some(s@)
    }
}

/// A slice, or nothing for an empty slice.
pub fn opt_slice<T>(s: &[T]) -> (r: Option<&[T]>)
    ensures
        s@.len() == 0 ==> r is None,
        s@.len() != 0 ==> r == Some(s),
{
    if s.len() == 0 {
        None
    } else {
        Some(s)
    }
}

/// The core configuration with the same settings.
pub open spec fn core_config(c: MltEncoderConfig) -> EncoderConfig {
    EncoderConfig {
        tessellate: c.tessellate,
        try_spatial_morton_sort: c.try_spatial_morton_sort,
        try_spatial_hilbert_sort: c.try_spatial_hilbert_sort,
        try_id_sort: c.try_id_sort,
        allow_fsst: c.allow_fsst,
        allow_fpf: c.allow_fpf,
        allow_shared_dict: c.allow_shared_dict,
    }
}

/// The core configuration with the same settings.
pub fn to_core_config(config: &MltEncoderConfig) -> (c: EncoderConfig)
    ensures
        c == core_config(*config),
{
    EncoderConfig {
        tessellate: config.tessellate,
        try_spatial_morton_sort: config.try_spatial_morton_sort,
        try_spatial_hilbert_sort: config.try_spatial_hilbert_sort,
        try_id_sort: config.try_id_sort,
        allow_fsst: config.allow_fsst,
        allow_fpf: config.allow_fpf,
        allow_shared_dict: config.allow_shared_dict,
    }
}

/// The error text of an operation on a consumed encoder.
pub open spec fn consumed_text() -> Seq<char> {
    "encoder already consumed"@
}

/// An error carrying `text`.
fn error_of(text: String) -> (e: Box<MltError>)
    ensures
        e.0 == text,
{
    Box::new(MltError(text))
}

/// The error of an operation on a consumed encoder.
fn consumed() -> (e: Box<MltError>)
    ensures
        e.0@ == consumed_text(),
{
    error_of(String::from_str("encoder already consumed"))
}

impl MltEncoderConfig {
    /// The default configuration: all optimizations enabled, tessellation off.
    pub fn new_default() -> (c: Box<MltEncoderConfig>)
        ensures
            core_config(*c) == (EncoderConfig {
                tessellate: false,
                try_spatial_morton_sort: true,
                try_spatial_hilbert_sort: true,
                try_id_sort: true,
                allow_fsst: true,
                allow_fpf: true,
                allow_shared_dict: true,
            }),
    {
        let d = EncoderConfig::default();
        Box::new(
            MltEncoderConfig {
                tessellate: d.tessellate,
                try_spatial_morton_sort: d.try_spatial_morton_sort,
                try_spatial_hilbert_sort: d.try_spatial_hilbert_sort,
                try_id_sort: d.try_id_sort,
                allow_fsst: d.allow_fsst,
                allow_fpf: d.allow_fpf,
                allow_shared_dict: d.allow_shared_dict,
            },
        )
    }

    /// Turns tessellation of polygons on or off.
    pub fn set_tessellate(&mut self, value: bool)
        ensures
            *final(self) == (MltEncoderConfig { tessellate: value, ..*old(self) }),
    {
        self.tessellate = value;
    }

    /// Turns the Morton-order spatial sort trial on or off.
    pub fn set_try_morton_sort(&mut self, value: bool)
        ensures
            *final(self) == (MltEncoderConfig { try_spatial_morton_sort: value, ..*old(self) }),
    {
        self.try_spatial_morton_sort = value;
    }

    /// Turns the Hilbert-order spatial sort trial on or off.
    pub fn set_try_hilbert_sort(&mut self, value: bool)
        ensures
            *final(self) == (MltEncoderConfig { try_spatial_hilbert_sort: value, ..*old(self) }),
    {
        self.try_spatial_hilbert_sort = value;
    }

    /// Turns the id sort trial on or off.
    pub fn set_try_id_sort(&mut self, value: bool)
        ensures
            *final(self) == (MltEncoderConfig { try_id_sort: value, ..*old(self) }),
    {
        self.try_id_sort = value;
    }

    /// Allows or forbids FSST string compression.
    pub fn set_allow_fsst(&mut self, value: bool)
        ensures
            *final(self) == (MltEncoderConfig { allow_fsst: value, ..*old(self) }),
    {
        self.allow_fsst = value;
    }

    /// Allows or forbids FastPFOR integer compression.
    pub fn set_allow_fast_pfor(&mut self, value: bool)
        ensures
            *final(self) == (MltEncoderConfig { allow_fpf: value, ..*old(self) }),
    {
        self.allow_fpf = value;
    }

    /// Allows or forbids shared string dictionaries.
    pub fn set_allow_shared_dict(&mut self, value: bool)
        ensures
            *final(self) == (MltEncoderConfig { allow_shared_dict: value, ..*old(self) }),
    {
        self.allow_shared_dict = value;
    }
}

impl MltEncodedBuffer {
    /// The encoded bytes.
    pub fn as_bytes(&self) -> (r: &[u8])
        ensures
            r@ == self.0@,
    {
        self.0.as_slice()
    }

    /// The number of encoded bytes.
    pub fn len(&self) -> (n: usize)
        ensures
            n == self.0@.len(),
    {
        self.0.len()
    }

    /// Whether there are no encoded bytes.
    pub fn is_empty(&self) -> (b: bool)
        ensures
            b == (self.0@.len() == 0),
    {
        self.0.len() == 0
    }
}

/// The error text of a result, or nothing on success.
pub open spec fn error_text(r: Result<(), Box<MltError>>) -> Option<Seq<char>> {
    match r {
        Ok(_) => None,
        Err(e) => Some(e.0@),
    }
}

/// An operation on a layer handle: on a consumed handle the consumed error
/// and no change; otherwise the handle stays live and `post` relates the
/// layer before and after.
pub open spec fn handle_post(
    pre: MltLayerEncoder,
    post_h: MltLayerEncoder,
    r: Result<(), Box<MltError>>,
    post: spec_fn(crate::builder::MltLayerEncoder, crate::builder::MltLayerEncoder) -> bool,
) -> bool {
    match pre.0 {
        None => error_text(r) == Some(consumed_text()) && post_h.0 is None,
        Some(b) => post_h.0 matches Some(b2) && post(b, b2),
    }
}

impl MltLayerEncoder {
    /// A layer encoder named by the UTF-8 bytes `name`, with the given
    /// extent; fails on invalid UTF-8.
    pub fn new(name: &[u8], extent: u32) -> (r: Result<Box<MltLayerEncoder>, Box<MltError>>)
        ensures
            r is Ok <==> valid_utf8(name@),
            r matches Ok(h) ==> (h.0 matches Some(b) && b.name@ == decode_utf8(name@) && b.extent
                == extent && b.ids is None && b.geometries is None && b.properties@.len() == 0),
    {
        match str_from_diplomat(name) {
            Ok(n) => Ok(Box::new(MltLayerEncoder(Some(crate::builder::MltLayerEncoder::new(n, extent))))),
            Err(e) => Err(error_of(e)),
        }
    }

    /// Sets the id column; an empty `present` means every id is present.
    pub fn set_ids(&mut self, ids: &[u64], present: &[bool]) -> (r: Result<(), Box<MltError>>)
        ensures
            handle_post(
                *old(self),
                *final(self),
                r,
                |b: crate::builder::MltLayerEncoder, b2: crate::builder::MltLayerEncoder|
                    set_ids_post(b, b2, ids@, opt_slice_spec(present), error_text(r)),
            ),
    {
        match &mut self.0 {
            None => Err(consumed()),
            Some(enc) => match enc.set_ids(ids, opt_slice(present)) {
                Ok(()) => Ok(()),
                Err(e) => Err(error_of(e)),
            },
        }
    }

    /// Sets the geometry from flat coordinates and meta entries.
    pub fn set_geometries(&mut self, coords: &[i32], meta: &[u32]) -> (r: Result<
        (),
        Box<MltError>,
    >)
        requires
            coords@.len() < usize::MAX,
        ensures
            handle_post(
                *old(self),
                *final(self),
                r,
                |b: crate::builder::MltLayerEncoder, b2: crate::builder::MltLayerEncoder|
                    set_geometries_post(b, b2, coords@, meta@, error_text(r)),
            ),
    {
        match &mut self.0 {
            None => Err(consumed()),
            Some(enc) => match enc.set_geometries(coords, meta) {
                Ok(()) => Ok(()),
                Err(e) => Err(error_of(e)),
            },
        }
    }

    /// Adds a scalar column named by the bytes `name` (invalid UTF-8
    /// replaced), with `count` elements of `data` in the byte order of the
    /// machine; an empty `present` means every value is present.
    pub fn add_column(
        &mut self,
        name: &[u8],
        column_type: MltColumnType,
        data: &[u8],
        count: u32,
        present: &[bool],
    ) -> (r: Result<(), Box<MltError>>)
        requires
            count * elem_size(column_type) <= usize::MAX,
        ensures
            handle_post(
                *old(self),
                *final(self),
                r,
                |b: crate::builder::MltLayerEncoder, b2: crate::builder::MltLayerEncoder|
                    add_column_post(
                        b,
                        b2,
                        utf8_lossy(name@),
                        column_type,
                        data@,
                        count as nat,
                        opt_slice_spec(present),
                        error_text(r),
                    ),
            ),
    {
        match &mut self.0 {
            None => Err(consumed()),
            Some(enc) => match enc.add_column(
                lossy_string(name),
                column_type,
                data,
                count as usize,
                opt_slice(present),
            ) {
                Ok(()) => Ok(()),
                Err(e) => Err(error_of(e)),
            },
        }
    }

    /// Adds a string column named by the bytes `name` (invalid UTF-8
    /// replaced), from concatenated bytes delimited by `offsets`; an empty
    /// `present` means every value is present.
    pub fn add_string_column(
        &mut self,
        name: &[u8],
        data: &[u8],
        offsets: &[u32],
        present: &[bool],
    ) -> (r: Result<(), Box<MltError>>)
        ensures
            handle_post(
                *old(self),
                *final(self),
                r,
                |b: crate::builder::MltLayerEncoder, b2: crate::builder::MltLayerEncoder|
                    r is Ok && add_string_column_post(
                        b,
                        b2,
                        utf8_lossy(name@),
                        data@,
                        offsets@,
                        opt_slice_spec(present),
                    ),
            ),
    {
        match &mut self.0 {
            None => Err(consumed()),
            Some(enc) => {
                enc.add_string_column_raw(lossy_string(name), data, offsets, opt_slice(present));
                Ok(())
            },
        }
    }
}

/// The error text of adding a layer to a consumed tile.
pub open spec fn tile_consumed_text() -> Seq<char> {
    "tile encoder already consumed"@
}

/// The error text of adding an already consumed layer to a tile.
pub open spec fn layer_consumed_text() -> Seq<char> {
    "layer encoder already consumed"@
}

/// The error text of a layer whose staging would overflow an offset.
pub open spec fn staging_fault_text() -> Seq<char> {
    "panic in add_layer: offset overflow"@
}

/// Adding a layer to a tile: a consumed tile refuses and nothing changes; a
/// consumed layer is refused; otherwise the layer handle is consumed and,
/// when it has geometry whose column offsets all fit in `u32`, the staged
/// layer is appended to the tile. Without geometry the missing-geometry
/// error comes; with geometry whose offsets would not fit, an error (where
/// staging faults). Either way the tile is unchanged.
pub open spec fn add_layer_post(
    pre: MltTileEncoder,
    post: MltTileEncoder,
    pre_l: MltLayerEncoder,
    post_l: MltLayerEncoder,
    err: Option<Seq<char>>,
) -> bool {
    match pre.0 {
        None => err == Some(tile_consumed_text()) && post == pre && post_l == pre_l,
        Some(t) => match pre_l.0 {
            None => err == Some(layer_consumed_text()) && post == pre && post_l.0 is None,
            Some(b) => {
                &&& post_l.0 is None
                &&& b.geometries is None ==> err == Some(missing_geometry_text()) && post == pre
                &&& (b.geometries is Some && !stageable(b)) ==> err == Some(staging_fault_text()) && post
                    == pre
                &&& (b.geometries is Some && stageable(b)) ==> err is None
                &&& (b.geometries is Some && stageable(b)) ==> (post.0 matches Some(t2)
                    && t2.layers@.len() == t.layers@.len() + 1 && t2.layers@.drop_last()
                    == t.layers@ && staged_from(t2.layers@.last(), b))
            },
        },
    }
}

impl MltTileEncoder {
    /// A tile encoder without layers.
    pub fn new() -> (t: Box<MltTileEncoder>)
        ensures
            t.0 matches Some(inner) && inner.layers@.len() == 0,
    {
        Box::new(MltTileEncoder(Some(crate::builder::MltTileEncoder::new())))
    }

    /// Stages the layer and appends it, consuming the layer handle (also
    /// when staging fails). On a consumed tile nothing changes; a consumed
    /// layer is refused.
    pub fn add_layer(&mut self, layer: &mut MltLayerEncoder) -> (r: Result<(), Box<MltError>>)
        ensures
            add_layer_post(*old(self), *final(self), *old(layer), *final(layer), error_text(r)),
    {
        let tile = match &mut self.0 {
            None => {
                return Err(error_of(String::from_str("tile encoder already consumed")));
            },
            Some(t) => t,
        };
        let inner = match layer.0.take() {
            None => {
                return Err(error_of(String::from_str("layer encoder already consumed")));
            },
            Some(b) => b,
        };
        let fits = match &inner.geometries {
            Some(gs) => geometries_stageable(gs.as_slice()),
            None => true,
        };
        if !fits {
            return Err(error_of(String::from_str("panic in add_layer: offset overflow")));
        }
        match inner.into_staged() {
            Ok(staged) => {
                let ghost before = tile.layers@;
                tile.add_layer(staged);
                assert(tile.layers@.drop_last() =~= before);
                Ok(())
            },
            Err(e) => Err(error_of(e)),
        }
    }
}

/// A layer handle added to a live tile is consumed for good: whatever
/// operation comes next on it fails with the consumed error and leaves it
/// consumed.
pub proof fn lemma_added_layer_stays_consumed(
    tile: MltTileEncoder,
    tile_after: MltTileEncoder,
    layer: MltLayerEncoder,
    layer_after: MltLayerEncoder,
    err: Option<Seq<char>>,
    layer_next: MltLayerEncoder,
    r: Result<(), Box<MltError>>,
    post: spec_fn(crate::builder::MltLayerEncoder, crate::builder::MltLayerEncoder) -> bool,
)
    requires
        tile.0 is Some,
        add_layer_post(tile, tile_after, layer, layer_after, err),
        handle_post(layer_after, layer_next, r, post),
    ensures
        error_text(r) == Some(consumed_text()),
        layer_next.0 is None,
{
}

/// A slice's contents, or nothing when empty.
pub open spec fn nonempty(s: Seq<bool>) -> Option<Seq<bool>> {
    if s.len() == 0 {
        None
    } else {
        Some(s)
    }
}

/// Optional ids survive the flat hand-over: split into values and presence
/// flags (as `decompose_options` splits them) and set through a layer
/// handle, they come back as the same optional ids, for any number of ids.
pub proof fn lemma_ids_round_trip(
    opts: Seq<Option<u64>>,
    vals: Seq<u64>,
    flags: Seq<bool>,
    pre: crate::builder::MltLayerEncoder,
    post: crate::builder::MltLayerEncoder,
    err: Option<Seq<char>>,
)
    requires
        vals.len() == opts.len(),
        flags.len() == opts.len(),
        with_presence(vals, Some(flags)) == opts,
        set_ids_post(pre, post, vals, nonempty(flags), err),
    ensures
        err is None,
        post.ids matches Some(v) && v.0@ == opts,
{
    if flags.len() == 0 {
        assert(all_present(vals) =~= opts);
    }
}

} // verus!
