//! Four-byte integer codings, as mathematical functions, and the calls into
//! `byteorder` that perform them.

use byteorder::{ByteOrder, LittleEndian};
use vstd::prelude::*;

verus! {

/// The number of distinct values of a 32-bit word.
pub open spec fn word_modulus() -> int {
    0x1_0000_0000
}

/// The unsigned value of four bytes, least significant first.
pub open spec fn le_u32_value(b: Seq<u8>) -> int {
    b[0] + 0x100 * b[1] + 0x1_0000 * b[2] + 0x100_0000 * b[3]
}

/// The two's-complement reading of a 32-bit word `u` in `[0, 2^32)`.
pub open spec fn signed_of_word(u: int) -> int {
    if u < 0x8000_0000 {
        u
    } else {
        u - word_modulus()
    }
}

/// The signed 32-bit integer that four bytes encode, least significant first.
pub open spec fn le_i32_value(b: Seq<u8>) -> int {
    signed_of_word(le_u32_value(b))
}

/// The 32-bit word whose two's-complement reading is `n`.
pub open spec fn word_of_signed(n: int) -> int {
    if n < 0 {
        n + word_modulus()
    } else {
        n
    }
}

/// The four bytes of `n` as a signed 32-bit integer, least significant first.
pub open spec fn le_bytes(n: int) -> Seq<u8> {
    let u = word_of_signed(n);
    seq![
        (u % 0x100) as u8,
        (u / 0x100 % 0x100) as u8,
        (u / 0x1_0000 % 0x100) as u8,
        (u / 0x100_0000 % 0x100) as u8,
    ]
}

/// The four bytes of `n` as a signed 32-bit integer, most significant first.
pub open spec fn be_bytes(n: int) -> Seq<u8> {
    let le = le_bytes(n);
    seq![le[3], le[2], le[1], le[0]]
}

/// Whether `n` lies in the range of `i32`.
pub open spec fn is_i32(n: int) -> bool {
    i32::MIN <= n <= i32::MAX
}

/// Relies on `byteorder::LittleEndian::read_i32`: it reads the first four
/// bytes of `buf` as a little-endian two's-complement integer, and panics
/// only when `buf` holds fewer than four bytes.
#[verifier::external_body]
pub(crate) fn read_i32_le(buf: &[u8]) -> (r: i32)
    requires
        buf@.len() >= 4,
    ensures
        r as int == le_i32_value(buf@.subrange(0, 4)),
{
    LittleEndian::read_i32(buf)
}

/// Relies on `byteorder::LittleEndian::write_i32`: it stores `n` in the first
/// four bytes of the buffer, least significant first.
#[verifier::external_body]
pub(crate) fn write_i32_le(n: i32) -> (r: [u8; 4])
    ensures
        r@ == le_bytes(n as int),
{
    let mut buf = [0u8; 4];
    LittleEndian::write_i32(&mut buf, n);
    buf
}

/// Decoding the little-endian bytes of an `i32` gives the integer back.
pub proof fn lemma_le_value_of_bytes(n: int)
    requires
        is_i32(n),
    ensures
        le_bytes(n).len() == 4,
        le_i32_value(le_bytes(n)) == n,
{
    let u = word_of_signed(n);
    assert(0 <= u < word_modulus());
    let b = le_bytes(n);
    assert(le_u32_value(b) == u);
}

/// Encoding the value of four bytes gives the same four bytes back.
pub proof fn lemma_le_bytes_of_value(b: Seq<u8>)
    requires
        b.len() == 4,
    ensures
        is_i32(le_i32_value(b)),
        le_bytes(le_i32_value(b)) == b,
{
    let (b0, b1, b2, b3) = (b[0] as int, b[1] as int, b[2] as int, b[3] as int);
    let u = le_u32_value(b);
    assert(0 <= u < word_modulus());
    assert(word_of_signed(le_i32_value(b)) == u);
    let r1 = b1 + 0x100 * b2 + 0x1_0000 * b3;
    let r2 = b2 + 0x100 * b3;
    assert(u % 0x100 == b0 && u / 0x100 == r1) by (nonlinear_arith)
        requires
            u == b0 + 0x100 * r1,
            0 <= b0 < 0x100,
            0 <= r1,
    ;
    assert(r1 % 0x100 == b1 && r1 / 0x100 == r2) by (nonlinear_arith)
        requires
            r1 == b1 + 0x100 * r2,
            0 <= b1 < 0x100,
            0 <= r2,
    ;
    assert(r2 % 0x100 == b2 && r2 / 0x100 == b3) by (nonlinear_arith)
        requires
            r2 == b2 + 0x100 * b3,
            0 <= b2 < 0x100,
            0 <= b3,
    ;
    assert(u / 0x1_0000 == r2) by (nonlinear_arith)
        requires
            u / 0x100 == r1,
            r1 / 0x100 == r2,
            0 <= u,
    ;
    assert(u / 0x100_0000 == b3) by (nonlinear_arith)
        requires
            u / 0x1_0000 == r2,
            r2 / 0x100 == b3,
            0 <= u,
    ;
    assert(le_bytes(le_i32_value(b)) =~= b);
}

} // verus!
