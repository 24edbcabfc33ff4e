//! Codec core for a chunk-based game-data container format.
//!
//! A container is a sequence of named, length-prefixed chunks.  Variable
//! length collections inside a chunk are stored as pointer lists: a count,
//! an offset table, and the element bodies, written in two passes so that
//! the table can be backfilled once the body offsets are known.  Strings
//! are pooled by pointer and deduplicated.  Field presence is gated on a
//! declared format revision carried by a version context.

pub mod version;
pub mod error;
pub mod reader;
pub mod writer;
pub mod lists;
pub mod records;
pub mod chunks;
pub mod container;
pub mod laws;

use vstd::prelude::*;

verus! {

/// The zero bytes needed to bring `pos` to the next multiple of `align`.
pub open spec fn pad_needed(pos: int, align: int) -> int
    recommends
        align >= 1,
{
    if pos % align == 0 {
        0
    } else {
        align - pos % align
    }
}

/// Adding the needed padding brings a position onto the alignment.
pub proof fn lemma_pad_aligned(pos: int, align: int)
    requires
        pos >= 0,
        align >= 1,
    ensures
        (pos + pad_needed(pos, align)) % align == 0,
        0 <= pad_needed(pos, align) < align,
{
    let r = pos % align;
    if r != 0 {
        vstd::arithmetic::div_mod::lemma_fundamental_div_mod(pos, align);
        assert(pos + (align - r) == (pos / align + 1) * align) by (nonlinear_arith)
            requires
                pos == align * (pos / align) + r,
        ;
        vstd::arithmetic::div_mod::lemma_mod_multiples_basic(pos / align + 1, align);
    }
}

/// The byte sequence contains no NUL byte.
pub open spec fn nul_free(s: Seq<u8>) -> bool {
    forall|k: int| 0 <= k < s.len() ==> s[k] != 0
}

/// `s` is the NUL-terminated byte string stored in `d` at `off`.
/// The terminator pins `s` down uniquely.
pub open spec fn has_cstr_at(d: Seq<u8>, off: int, s: Seq<u8>) -> bool {
    &&& 0 <= off
    &&& off + s.len() < d.len()
    &&& forall|q: int| 0 <= q < s.len() ==> d[off + q] == s[q]
    &&& d[off + s.len()] == 0
    &&& nul_free(s)
}

/// Some NUL byte occurs in `d` at or after `off`: exactly when a
/// NUL-terminated string can be read there.
pub open spec fn zero_from(d: Seq<u8>, off: int) -> bool {
    exists|j: int| off <= j < d.len() && d[j] == 0
}

/// At one offset there is only one NUL-terminated string: this is what
/// makes offset-keyed string pooling sound.
pub proof fn lemma_cstr_unique(d: Seq<u8>, off: int, s1: Seq<u8>, s2: Seq<u8>)
    requires
        has_cstr_at(d, off, s1),
        has_cstr_at(d, off, s2),
    ensures
        s1 == s2,
{
    if s1.len() < s2.len() {
        assert(s2[s1.len() as int] == d[off + s1.len()]);
        assert(s2[s1.len() as int] != 0);
        assert(false);
    } else if s2.len() < s1.len() {
        assert(s1[s2.len() as int] == d[off + s2.len()]);
        assert(s1[s2.len() as int] != 0);
        assert(false);
    } else {
        assert(s1 =~= s2) by {
            assert(forall|k: int| 0 <= k < s1.len() ==> s1[k] == d[off + k] && s2[k] == d[off
                + k]);
        }
    }
}

/// Copies a byte vector; the copy holds the same bytes.
#[verifier::loop_isolation(false)]
pub fn clone_bytes(v: &Vec<u8>) -> (r: Vec<u8>)
    ensures
        r@ == v@,
{
    let mut r: Vec<u8> = Vec::new();
    let mut i: usize = 0;
    while i < v.len()
        invariant
            i <= v.len(),
            r@ == v@.subrange(0, i as int),
        decreases v.len() - i,
    {
        r.push(v[i]);
        i = i + 1;
        proof {
            assert(r@ =~= v@.subrange(0, i as int));
        }
    }
    proof {
        assert(r@ =~= v@);
    }
    r
}

/// Byte-for-byte equality of two vectors.
#[verifier::loop_isolation(false)]
pub fn bytes_eq(a: &Vec<u8>, b: &Vec<u8>) -> (r: bool)
    ensures
        r <==> a@ =~= b@,
{
    if a.len() != b.len() {
        return false;
    }
    let mut i: usize = 0;
    while i < a.len()
        invariant
            i <= a.len(),
            a@.len() == b@.len(),
            forall|k: int| 0 <= k < i ==> a@[k] == b@[k],
        decreases a.len() - i,
    {
        if a[i] != b[i] {
            return false;
        }
        i = i + 1;
    }
    true
}

/// Little-endian value of four bytes, as an unbounded integer.
pub open spec fn le32(b0: u8, b1: u8, b2: u8, b3: u8) -> int {
    b0 + 0x100 * (b1 as int) + 0x10000 * (b2 as int) + 0x1000000 * (b3 as int)
}

/// Little-endian value of the four bytes of `d` starting at `p`.
pub open spec fn le32_at(d: Seq<u8>, p: int) -> int
    recommends
        0 <= p,
        p + 4 <= d.len(),
{
    le32(d[p], d[p + 1], d[p + 2], d[p + 3])
}

/// Little-endian two's-complement value of the four bytes of `d`
/// starting at `p`.
pub open spec fn le32s_at(d: Seq<u8>, p: int) -> int
    recommends
        0 <= p,
        p + 4 <= d.len(),
{
    le32_signed(d[p], d[p + 1], d[p + 2], d[p + 3])
}

/// Little-endian two's-complement value of four bytes.
pub open spec fn le32_signed(b0: u8, b1: u8, b2: u8, b3: u8) -> int {
    if le32(b0, b1, b2, b3) < 0x80000000 {
        le32(b0, b1, b2, b3)
    } else {
        le32(b0, b1, b2, b3) - 0x100000000
    }
}

/// Relies on byteorder's LittleEndian::read_u32: the unsigned little-endian
/// value of the first four bytes of the slice.
#[verifier::external_body]
pub fn le_read_u32(b0: u8, b1: u8, b2: u8, b3: u8) -> (r: u32)
    ensures
        r as int == le32(b0, b1, b2, b3),
{
    <byteorder::LittleEndian as byteorder::ByteOrder>::read_u32(&[b0, b1, b2, b3])
}

/// Relies on byteorder's LittleEndian::write_u32: stores the value as four
/// little-endian bytes.
#[verifier::external_body]
pub fn le_split_u32(x: u32) -> (r: (u8, u8, u8, u8))
    ensures
        le32(r.0, r.1, r.2, r.3) == x as int,
{
    let mut buf = [0u8; 4];
    <byteorder::LittleEndian as byteorder::ByteOrder>::write_u32(&mut buf, x);
    (buf[0], buf[1], buf[2], buf[3])
}

/// Relies on byteorder's LittleEndian::read_i32: the signed little-endian
/// two's-complement value of the four bytes.
#[verifier::external_body]
pub fn le_read_i32(b0: u8, b1: u8, b2: u8, b3: u8) -> (r: i32)
    ensures
        r as int == le32_signed(b0, b1, b2, b3),
{
    <byteorder::LittleEndian as byteorder::ByteOrder>::read_i32(&[b0, b1, b2, b3])
}

/// Relies on byteorder's LittleEndian::write_i32: stores the value as four
/// little-endian two's-complement bytes.
#[verifier::external_body]
pub fn le_split_i32(x: i32) -> (r: (u8, u8, u8, u8))
    ensures
        le32_signed(r.0, r.1, r.2, r.3) == x as int,
{
    let mut buf = [0u8; 4];
    <byteorder::LittleEndian as byteorder::ByteOrder>::write_i32(&mut buf, x);
    (buf[0], buf[1], buf[2], buf[3])
}

} // verus!
