//! The elements of a tensor stored in a weight archive: little-endian
//! words, as many as the tensor's shape asks for.
use vstd::prelude::*;
use byteorder::{ByteOrder, LittleEndian};

use crate::dtype::{bytes_per_element, spec_bytes_per_element, DataType};
use crate::tensor::{checked_numel, numel};

verus! {

/// The element type of a tensor in the weight archive.
pub type PNNXBinDataType = DataType;

/// The number that the `w` bytes of `bytes` from `off` on stand for,
/// least significant byte first.
pub open spec fn le_value(bytes: Seq<u8>, off: int, w: nat) -> nat
    decreases w,
{
    if w == 0 {
        0
    } else {
        bytes[off] as nat + 256 * le_value(bytes, off + 1, (w - 1) as nat)
    }
}

/// `LittleEndian::read_u16` from byteorder: the first two bytes as a
/// little-endian number (`u16::from_le_bytes`); it panics on fewer bytes.
#[verifier::external_body]
fn read_le_u16(bytes: &[u8], off: usize) -> (r: u16)
    requires
        off + 2 <= bytes@.len(),
    ensures
        r == le_value(bytes@, off as int, 2),
{
    LittleEndian::read_u16(&bytes[off..])
}

/// `LittleEndian::read_u32` from byteorder: the first four bytes as a
/// little-endian number (`u32::from_le_bytes`); it panics on fewer bytes.
#[verifier::external_body]
fn read_le_u32(bytes: &[u8], off: usize) -> (r: u32)
    requires
        off + 4 <= bytes@.len(),
    ensures
        r == le_value(bytes@, off as int, 4),
{
    LittleEndian::read_u32(&bytes[off..])
}

/// `LittleEndian::read_i64` from byteorder: the first eight bytes as a
/// little-endian unsigned number (`u64::from_le_bytes`), taken as a
/// two's-complement `i64`; it panics on fewer bytes.
#[verifier::external_body]
fn read_le_i64(bytes: &[u8], off: usize) -> (r: i64)
    requires
        off + 8 <= bytes@.len(),
    ensures
        r == le_value(bytes@, off as int, 8) as i64,
{
    LittleEndian::read_i64(&bytes[off..])
}

/// The elements of a stored tensor, as the bits or values the bytes hold.
#[derive(Debug, Clone, PartialEq)]
pub enum StoredData {
    /// The bits of each 32-bit float.
    Float32Bits(Vec<u32>),
    /// The bits of each half-precision float.
    Float16Bits(Vec<u16>),
    /// The bits of each brain float.
    BFloat16Bits(Vec<u16>),
    Boolean(Vec<bool>),
    Int64(Vec<i64>),
}

/// The number of bytes a tensor of this shape and element type takes.
pub fn stored_len(shape: &Vec<usize>, dtype: DataType) -> (r: usize)
    requires
        numel(shape@) * spec_bytes_per_element(dtype) <= usize::MAX,
    ensures
        r == numel(shape@) * spec_bytes_per_element(dtype),
{
    let w = bytes_per_element(dtype);
    let n = match checked_numel(shape) {
        Some(n) => n,
        None => {
            proof {
                assert(numel(shape@) * w >= numel(shape@)) by (nonlinear_arith)
                    requires
                        w >= 1,
                ;
            }
            0
        },
    };
    n * w
}

/// The 16-bit little-endian words of `bytes`.
pub fn decode_u16s(bytes: &Vec<u8>) -> (r: Vec<u16>)
    requires
        bytes@.len() % 2 == 0,
    ensures
        r@.len() == bytes@.len() / 2,
        forall|i: int| 0 <= i < r@.len() ==> #[trigger] r@[i] == le_value(bytes@, 2 * i, 2),
{
    let total = bytes.len();
    let count = total / 2;
    let mut out: Vec<u16> = Vec::new();
    let mut i: usize = 0;
    while i < count
        invariant
            i <= count,
            count == bytes@.len() / 2,
            2 * count <= bytes@.len() <= usize::MAX,
            out@.len() == i,
            forall|q: int| 0 <= q < i ==> #[trigger] out@[q] == le_value(bytes@, 2 * q, 2),
        decreases count - i,
    {
        out.push(read_le_u16(bytes.as_slice(), 2 * i));
        i = i + 1;
    }
    out
}

/// The 32-bit little-endian words of `bytes`.
pub fn decode_u32s(bytes: &Vec<u8>) -> (r: Vec<u32>)
    requires
        bytes@.len() % 4 == 0,
    ensures
        r@.len() == bytes@.len() / 4,
        forall|i: int| 0 <= i < r@.len() ==> #[trigger] r@[i] == le_value(bytes@, 4 * i, 4),
{
    let total = bytes.len();
    let count = total / 4;
    let mut out: Vec<u32> = Vec::new();
    let mut i: usize = 0;
    while i < count
        invariant
            i <= count,
            count == bytes@.len() / 4,
            4 * count <= bytes@.len() <= usize::MAX,
            out@.len() == i,
            forall|q: int| 0 <= q < i ==> #[trigger] out@[q] == le_value(bytes@, 4 * q, 4),
        decreases count - i,
    {
        out.push(read_le_u32(bytes.as_slice(), 4 * i));
        i = i + 1;
    }
    out
}

/// The 64-bit little-endian two's-complement integers of `bytes`.
pub fn decode_i64s(bytes: &Vec<u8>) -> (r: Vec<i64>)
    requires
        bytes@.len() % 8 == 0,
    ensures
        r@.len() == bytes@.len() / 8,
        forall|i: int| 0 <= i < r@.len() ==> #[trigger] r@[i] == le_value(bytes@, 8 * i, 8) as i64,
{
    let total = bytes.len();
    let count = total / 8;
    let mut out: Vec<i64> = Vec::new();
    let mut i: usize = 0;
    while i < count
        invariant
            i <= count,
            count == bytes@.len() / 8,
            8 * count <= bytes@.len() <= usize::MAX,
            out@.len() == i,
            forall|q: int| 0 <= q < i ==> #[trigger] out@[q] == le_value(bytes@, 8 * q, 8) as i64,
        decreases count - i,
    {
        out.push(read_le_i64(bytes.as_slice(), 8 * i));
        i = i + 1;
    }
    out
}

/// Each byte as a boolean: whether it differs from zero.
pub fn decode_bools(bytes: &Vec<u8>) -> (r: Vec<bool>)
    ensures
        r@.len() == bytes@.len(),
        forall|i: int| 0 <= i < r@.len() ==> #[trigger] r@[i] == (bytes@[i] != 0),
{
    let mut out: Vec<bool> = Vec::new();
    let mut i: usize = 0;
    while i < bytes.len()
        invariant
            i <= bytes@.len(),
            out@.len() == i,
            forall|q: int| 0 <= q < i ==> #[trigger] out@[q] == (bytes@[q] != 0),
        decreases bytes@.len() - i,
    {
        out.push(bytes[i] != 0);
        i = i + 1;
    }
    out
}

/// `d` is what `bytes` hold as elements of type `dtype`: 32-bit words for
/// 32-bit floats, 16-bit words for half-precision and brain floats, one
/// byte each for booleans (true when not zero), and 64-bit two's-complement
/// integers, all little-endian.
pub open spec fn decoded(dtype: DataType, bytes: Seq<u8>, d: StoredData) -> bool {
    match dtype {
        DataType::Float32 => d matches StoredData::Float32Bits(v) && v@.len() == bytes.len() / 4
            && forall|i: int| 0 <= i < v@.len() ==> #[trigger] v@[i] == le_value(bytes, 4 * i, 4),
        DataType::Float16 => d matches StoredData::Float16Bits(v) && v@.len() == bytes.len() / 2
            && forall|i: int| 0 <= i < v@.len() ==> #[trigger] v@[i] == le_value(bytes, 2 * i, 2),
        DataType::BFloat16 => d matches StoredData::BFloat16Bits(v) && v@.len() == bytes.len() / 2
            && forall|i: int| 0 <= i < v@.len() ==> #[trigger] v@[i] == le_value(bytes, 2 * i, 2),
        DataType::Boolean => d matches StoredData::Boolean(v) && v@.len() == bytes.len()
            && forall|i: int| 0 <= i < v@.len() ==> #[trigger] v@[i] == (bytes[i] != 0),
        DataType::Int64 => d matches StoredData::Int64(v) && v@.len() == bytes.len() / 8
            && forall|i: int| 0 <= i < v@.len() ==> #[trigger] v@[i] == le_value(bytes, 8 * i, 8) as i64,
    }
}

/// How many elements `d` holds.
pub open spec fn stored_count(d: StoredData) -> nat {
    match d {
        StoredData::Float32Bits(v) => v@.len(),
        StoredData::Float16Bits(v) => v@.len(),
        StoredData::BFloat16Bits(v) => v@.len(),
        StoredData::Boolean(v) => v@.len(),
        StoredData::Int64(v) => v@.len(),
    }
}

/// The raw word of element `k` of `d`, as a number: the bits of a float,
/// the value of an integer, 1 or 0 for a boolean.
pub open spec fn stored_word(d: StoredData, k: int) -> int {
    match d {
        StoredData::Float32Bits(v) => v@[k] as int,
        StoredData::Float16Bits(v) => v@[k] as int,
        StoredData::BFloat16Bits(v) => v@[k] as int,
        StoredData::Boolean(v) => if v@[k] { 1 } else { 0 },
        StoredData::Int64(v) => v@[k] as int,
    }
}

/// The elements of a stored tensor of element type `dtype`, read from
/// exactly the bytes it takes.
pub fn decode_stored(dtype: DataType, bytes: &Vec<u8>) -> (r: StoredData)
    requires
        bytes@.len() % spec_bytes_per_element(dtype) == 0,
    ensures
        decoded(dtype, bytes@, r),
{
    match dtype {
        DataType::Float32 => StoredData::Float32Bits(decode_u32s(bytes)),
        DataType::Float16 => StoredData::Float16Bits(decode_u16s(bytes)),
        DataType::BFloat16 => StoredData::BFloat16Bits(decode_u16s(bytes)),
        DataType::Boolean => StoredData::Boolean(decode_bools(bytes)),
        DataType::Int64 => StoredData::Int64(decode_i64s(bytes)),
    }
}


/// A stored tensor is read back element by element: the bytes that
/// `stored_len` gives for a shape decode to exactly as many elements as the
/// shape has, and element `k` is the little-endian word in the `k`-th slice
/// of `spec_bytes_per_element(dtype)` bytes (taken as a two's-complement
/// integer for `Int64`, as its first byte not being zero for `Boolean`).
pub proof fn law_stored_elements(shape: Seq<usize>, dtype: DataType, bytes: Seq<u8>, d: StoredData)
    requires
        bytes.len() == numel(shape) * spec_bytes_per_element(dtype),
        decoded(dtype, bytes, d),
    ensures
        stored_count(d) == numel(shape),
        forall|k: int|
            0 <= k < stored_count(d) ==> #[trigger] stored_word(d, k) == match dtype {
                DataType::Int64 => (le_value(
                    bytes,
                    k * spec_bytes_per_element(dtype),
                    spec_bytes_per_element(dtype),
                ) as i64) as int,
                DataType::Boolean => if bytes[k * spec_bytes_per_element(dtype)] != 0 {
                    1int
                } else {
                    0int
                },
                _ => le_value(
                    bytes,
                    k * spec_bytes_per_element(dtype),
                    spec_bytes_per_element(dtype),
                ) as int,
            },
{
    let n = numel(shape);
    let w = spec_bytes_per_element(dtype);
    assert((n * w) / w == n) by (nonlinear_arith)
        requires
            w > 0,
    ;
    assert(w > 0);
}


/// Words are stored least significant byte first: the byte at `off` counts
/// once, the next 256 times, the next 256 * 256 times, and so on.
pub proof fn law_little_endian(bytes: Seq<u8>, off: int)
    ensures
        le_value(bytes, off, 2) == bytes[off] as nat + 256 * (bytes[off + 1] as nat),
        le_value(bytes, off, 4) == bytes[off] as nat + 256 * (bytes[off + 1] as nat) + 65536 * (
        bytes[off + 2] as nat) + 16777216 * (bytes[off + 3] as nat),
{
    reveal_with_fuel(le_value, 5);
}

} // verus!
