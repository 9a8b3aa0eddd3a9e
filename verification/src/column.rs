//! Scalar property columns given as raw bytes: element decoding, presence
//! masks and the staged column a typed byte buffer becomes.
use vstd::prelude::*;


verus! {

/// Data type of a scalar property column.
#[derive(Debug, Clone, Copy, PartialEq, Eq, Structural)]
pub enum MltColumnType {
    Bool,
    I8,
    U8,
    I32,
    U32,
    I64,
    U64,
    F32,
    F64,
}

/// Bytes taken by one element of a column of type `t`.
pub open spec fn elem_size(t: MltColumnType) -> nat {
    match t {
        MltColumnType::Bool | MltColumnType::I8 | MltColumnType::U8 => 1,
        MltColumnType::I32 | MltColumnType::U32 | MltColumnType::F32 => 4,
        MltColumnType::I64 | MltColumnType::U64 | MltColumnType::F64 => 8,
    }
}

/// The unsigned little-endian number held by `b`.
pub open spec fn le_value(b: Seq<u8>) -> int
    decreases b.len(),
{
    if b.len() == 0 {
        0
    } else {
        b[0] + 256 * le_value(b.drop_first())
    }
}

/// The unsigned big-endian number held by `b`.
pub open spec fn be_value(b: Seq<u8>) -> int {
    le_value(b.reverse())
}

/// The unsigned number held by `b` in little-endian (`le`) or big-endian order.
pub open spec fn ordered_value(b: Seq<u8>, le: bool) -> int {
    if le {
        le_value(b)
    } else {
        be_value(b)
    }
}

/// `v` is `b` read in the given byte order.
pub open spec fn reads_u32(b: Seq<u8>, v: u32, le: bool) -> bool {
    v == ordered_value(b, le)
}

/// `v` is `b` read in the given byte order.
pub open spec fn reads_u64(b: Seq<u8>, v: u64, le: bool) -> bool {
    v == ordered_value(b, le)
}

/// `v` is `b` read in the given byte order, as a two's complement number.
pub open spec fn reads_i32(b: Seq<u8>, v: i32, le: bool) -> bool {
    v == ordered_value(b, le) as i32
}

/// `v` is `b` read in the given byte order, as a two's complement number.
pub open spec fn reads_i64(b: Seq<u8>, v: i64, le: bool) -> bool {
    v == ordered_value(b, le) as i64
}

/// The bytes of element `i` of elements `size` bytes wide.
pub open spec fn element(data: Seq<u8>, size: nat, i: int) -> Seq<u8> {
    data.subrange(size * i, size * i + size)
}

/// Whether the machine this runs on stores numbers little-endian (it is
/// big-endian otherwise).
pub open spec fn machine_little_endian() -> bool {
    vstd::endian::endianness() is Little
}

/// Reads the bytes `1, 0, 0, 0` as a `u32` in the machine's byte order
/// (`bytemuck::pod_read_unaligned`). The contract claims the value is 1 on
/// a little-endian machine and `0x0100_0000` on a big-endian one.
#[verifier::external_body]
fn byte_order_probe() -> (v: u32)
    ensures
        v == if machine_little_endian() {
            1u32
        } else {
            0x0100_0000u32
        },
{
    bytemuck::pod_read_unaligned::<u32>(&[1u8, 0, 0, 0])
}

/// Whether the machine stores numbers little-endian (it is big-endian
/// otherwise).
pub fn native_little_endian() -> (le: bool)
    ensures
        le == machine_little_endian(),
{
    byte_order_probe() == 1
}

proof fn lemma_le4(b: Seq<u8>)
    requires
        b.len() == 4,
    ensures
        le_value(b) == b[0] + 256 * b[1] + 65536 * b[2] + 16777216 * b[3],
        be_value(b) == b[3] + 256 * b[2] + 65536 * b[1] + 16777216 * b[0],
{
    reveal_with_fuel(le_value, 5);
    let r = b.reverse();
    assert(r.drop_first().drop_first().drop_first().drop_first() =~= Seq::<u8>::empty());
    assert(b.drop_first().drop_first().drop_first().drop_first() =~= Seq::<u8>::empty());
    assert(r[0] == b[3] && r[1] == b[2] && r[2] == b[1] && r[3] == b[0]);
}

proof fn lemma_le8(b: Seq<u8>)
    requires
        b.len() == 8,
    ensures
        le_value(b) == b[0] + 256 * b[1] + 65536 * b[2] + 16777216 * b[3] + 4294967296 * b[4]
            + 1099511627776 * b[5] + 281474976710656 * b[6] + 72057594037927936 * b[7],
        be_value(b) == b[7] + 256 * b[6] + 65536 * b[5] + 16777216 * b[4] + 4294967296 * b[3]
            + 1099511627776 * b[2] + 281474976710656 * b[1] + 72057594037927936 * b[0],
{
    reveal_with_fuel(le_value, 9);
    let r = b.reverse();
    assert(r.drop_first().drop_first().drop_first().drop_first().drop_first().drop_first().drop_first().drop_first()
        =~= Seq::<u8>::empty());
    assert(b.drop_first().drop_first().drop_first().drop_first().drop_first().drop_first().drop_first().drop_first()
        =~= Seq::<u8>::empty());
    assert(r[0] == b[7] && r[1] == b[6] && r[2] == b[5] && r[3] == b[4] && r[4] == b[3] && r[5]
        == b[2] && r[6] == b[1] && r[7] == b[0]);
}

/// The four bytes at `at` as a `u32` in the given byte order.
fn word32(data: &[u8], at: usize, le: bool) -> (v: u32)
    requires
        at + 4 <= data@.len(),
    ensures
        v == ordered_value(data@.subrange(at as int, at + 4), le),
{
    proof {
        lemma_le4(data@.subrange(at as int, at + 4));
    }
    let len = data.len();
    assert(at + 4 <= len);
    let (b0, b1, b2, b3) = if le {
        (data[at], data[at + 1], data[at + 2], data[at + 3])
    } else {
        (data[at + 3], data[at + 2], data[at + 1], data[at])
    };
    b0 as u32 + 256 * (b1 as u32) + 65536 * (b2 as u32) + 16777216 * (b3 as u32)
}

/// The eight bytes at `at` as a `u64` in the given byte order.
fn word64(data: &[u8], at: usize, le: bool) -> (v: u64)
    requires
        at + 8 <= data@.len(),
    ensures
        v == ordered_value(data@.subrange(at as int, at + 8), le),
{
    proof {
        lemma_le8(data@.subrange(at as int, at + 8));
    }
    let len = data.len();
    assert(at + 8 <= len);
    let (b0, b1, b2, b3, b4, b5, b6, b7) = if le {
        (
            data[at],
            data[at + 1],
            data[at + 2],
            data[at + 3],
            data[at + 4],
            data[at + 5],
            data[at + 6],
            data[at + 7],
        )
    } else {
        (
            data[at + 7],
            data[at + 6],
            data[at + 5],
            data[at + 4],
            data[at + 3],
            data[at + 2],
            data[at + 1],
            data[at],
        )
    };
    b0 as u64 + 256 * (b1 as u64) + 65536 * (b2 as u64) + 16777216 * (b3 as u64) + 4294967296 * (
    b4 as u64) + 1099511627776 * (b5 as u64) + 281474976710656 * (b6 as u64) + 72057594037927936 * (
    b7 as u64)
}

/// The first `count` bytes, each as a boolean (non-zero is `true`).
pub fn read_bools(data: &[u8], count: usize) -> (r: Vec<bool>)
    requires
        count <= data@.len(),
    ensures
        r@.len() == count,
        forall|i: int| 0 <= i < count ==> #[trigger] r@[i] == (data@[i] != 0),
{
    let mut r: Vec<bool> = Vec::new();
    let mut i: usize = 0;
    while i < count
        invariant
            i <= count <= data@.len(),
            r@.len() == i,
            forall|j: int| 0 <= j < i ==> #[trigger] r@[j] == (data@[j] != 0),
        decreases count - i,
    {
        r.push(data[i] != 0);
        i = i + 1;
    }
    r
}

/// The first `count` bytes, each as a two's complement `i8`.
pub fn read_i8s(data: &[u8], count: usize) -> (r: Vec<i8>)
    requires
        count <= data@.len(),
    ensures
        r@.len() == count,
        forall|i: int| 0 <= i < count ==> #[trigger] r@[i] == data@[i] as i8,
{
    let mut r: Vec<i8> = Vec::new();
    let mut i: usize = 0;
    while i < count
        invariant
            i <= count <= data@.len(),
            r@.len() == i,
            forall|j: int| 0 <= j < i ==> #[trigger] r@[j] == data@[j] as i8,
        decreases count - i,
    {
        r.push(data[i] as i8);
        i = i + 1;
    }
    r
}

/// The first `count` bytes.
pub fn read_u8s(data: &[u8], count: usize) -> (r: Vec<u8>)
    requires
        count <= data@.len(),
    ensures
        r@ == data@.subrange(0, count as int),
{
    let mut r: Vec<u8> = Vec::new();
    let mut i: usize = 0;
    while i < count
        invariant
            i <= count <= data@.len(),
            r@ == data@.subrange(0, i as int),
        decreases count - i,
    {
        r.push(data[i]);
        i = i + 1;
        assert(r@ =~= data@.subrange(0, i as int));
    }
    r
}

/// `count` four-byte elements, each read in the given byte order.
pub fn read_u32s(data: &[u8], count: usize, le: bool) -> (r: Vec<u32>)
    requires
        4 * count <= data@.len(),
    ensures
        r@.len() == count,
        forall|i: int| 0 <= i < count ==> reads_u32(element(data@, 4, i), #[trigger] r@[i], le),
{
    let mut r: Vec<u32> = Vec::new();
    let mut i: usize = 0;
    let len = data.len();
    while i < count
        invariant
            i <= count,
            len == data@.len(),
            4 * count <= data@.len(),
            r@.len() == i,
            forall|j: int| 0 <= j < i ==> reads_u32(element(data@, 4, j), #[trigger] r@[j], le),
        decreases count - i,
    {
        let v = word32(data, 4 * i, le);
        r.push(v);
        i = i + 1;
    }
    r
}

/// `count` eight-byte elements, each read in the given byte order.
pub fn read_u64s(data: &[u8], count: usize, le: bool) -> (r: Vec<u64>)
    requires
        8 * count <= data@.len(),
    ensures
        r@.len() == count,
        forall|i: int| 0 <= i < count ==> reads_u64(element(data@, 8, i), #[trigger] r@[i], le),
{
    let mut r: Vec<u64> = Vec::new();
    let mut i: usize = 0;
    let len = data.len();
    while i < count
        invariant
            i <= count,
            len == data@.len(),
            8 * count <= data@.len(),
            r@.len() == i,
            forall|j: int| 0 <= j < i ==> reads_u64(element(data@, 8, j), #[trigger] r@[j], le),
        decreases count - i,
    {
        let v = word64(data, 8 * i, le);
        r.push(v);
        i = i + 1;
    }
    r
}

/// `count` four-byte elements, each read in the given byte order as `i32`.
pub fn read_i32s(data: &[u8], count: usize, le: bool) -> (r: Vec<i32>)
    requires
        4 * count <= data@.len(),
    ensures
        r@.len() == count,
        forall|i: int| 0 <= i < count ==> reads_i32(element(data@, 4, i), #[trigger] r@[i], le),
{
    let words = read_u32s(data, count, le);
    let mut r: Vec<i32> = Vec::new();
    let mut i: usize = 0;
    while i < count
        invariant
            i <= count,
            words@.len() == count,
            forall|j: int|
                0 <= j < count ==> reads_u32(element(data@, 4, j), #[trigger] words@[j], le),
            r@.len() == i,
            forall|j: int| 0 <= j < i ==> reads_i32(element(data@, 4, j), #[trigger] r@[j], le),
        decreases count - i,
    {
        let w = words[i];
        assert(reads_u32(element(data@, 4, i as int), words@[i as int], le));
        r.push(w as i32);
        i = i + 1;
    }
    r
}

/// `count` eight-byte elements, each read in the given byte order as `i64`.
pub fn read_i64s(data: &[u8], count: usize, le: bool) -> (r: Vec<i64>)
    requires
        8 * count <= data@.len(),
    ensures
        r@.len() == count,
        forall|i: int| 0 <= i < count ==> reads_i64(element(data@, 8, i), #[trigger] r@[i], le),
{
    let words = read_u64s(data, count, le);
    let mut r: Vec<i64> = Vec::new();
    let mut i: usize = 0;
    while i < count
        invariant
            i <= count,
            words@.len() == count,
            forall|j: int|
                0 <= j < count ==> reads_u64(element(data@, 8, j), #[trigger] words@[j], le),
            r@.len() == i,
            forall|j: int| 0 <= j < i ==> reads_i64(element(data@, 8, j), #[trigger] r@[j], le),
        decreases count - i,
    {
        let w = words[i];
        assert(reads_u64(element(data@, 8, i as int), words@[i as int], le));
        r.push(w as i64);
        i = i + 1;
    }
    r
}

} // verus!
