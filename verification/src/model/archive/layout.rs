//! Positions, alignment and fixed-width integers: what every archived form is
//! laid out with.
//!
//! Integers are stored little-endian, signed ones in two's complement.
//! Cross-references are signed 32-bit distances between two positions of one
//! buffer, so a buffer never grows beyond [`MAX_ARCHIVE_LEN`].

use vstd::bytes::*;
use vstd::prelude::*;
use vstd::slice::slice_subrange;

verus! {

broadcast use vstd::slice::group_slice_axioms;

/// The greatest length of a buffer. Every position of such a buffer, and the
/// distance between any two of them, fits a signed 32-bit offset.
pub const MAX_ARCHIVE_LEN: usize = 0x7FFF_FFFF;

/// The number of bytes from `pos` to the next multiple of `align`.
pub open spec fn padding(pos: int, align: int) -> int {
    (align - pos % align) % align
}

/// The least multiple of `align` that is not below `pos`.
pub open spec fn align_up(pos: int, align: int) -> int {
    pos + padding(pos, align)
}

/// `count` zero bytes.
pub open spec fn zeros(count: int) -> Seq<u8> {
    Seq::new(count as nat, |i: int| 0u8)
}

/// The two's complement of `x` in 32 bits.
pub open spec fn i32_to_u32(x: i32) -> u32 {
    if x >= 0 {
        x as u32
    } else {
        (x + 0x1_0000_0000) as u32
    }
}

/// The signed integer whose two's complement in 32 bits is `x`.
pub open spec fn u32_to_i32(x: u32) -> i32 {
    if x < 0x8000_0000 {
        x as i32
    } else {
        (x - 0x1_0000_0000) as i32
    }
}

/// The two's complement of `x` in 128 bits.
pub open spec fn i128_to_u128(x: i128) -> u128 {
    if x >= 0 {
        x as u128
    } else {
        (x + u128::MAX + 1) as u128
    }
}

/// The signed integer whose two's complement in 128 bits is `x`.
pub open spec fn u128_to_i128(x: u128) -> i128 {
    if x <= i128::MAX {
        x as i128
    } else {
        (x - u128::MAX - 1) as i128
    }
}

/// The four bytes that store `x`.
pub open spec fn u32_le(x: u32) -> Seq<u8> {
    spec_u32_to_le_bytes(x)
}

/// The four bytes that store `x`.
pub open spec fn i32_le(x: i32) -> Seq<u8> {
    spec_u32_to_le_bytes(i32_to_u32(x))
}

/// The sixteen bytes that store `x`.
pub open spec fn i128_le(x: i128) -> Seq<u8> {
    spec_u128_to_le_bytes(i128_to_u128(x))
}

/// The unsigned integer stored in the four bytes of `buf` from `pos` on.
pub open spec fn u32_at(buf: Seq<u8>, pos: int) -> u32 {
    spec_u32_from_le_bytes(buf.subrange(pos, pos + 4))
}

/// The signed integer stored in the four bytes of `buf` from `pos` on.
pub open spec fn i32_at(buf: Seq<u8>, pos: int) -> i32 {
    u32_to_i32(u32_at(buf, pos))
}

/// The signed integer stored in the sixteen bytes of `buf` from `pos` on.
pub open spec fn i128_at(buf: Seq<u8>, pos: int) -> i128 {
    u128_to_i128(spec_u128_from_le_bytes(buf.subrange(pos, pos + 16)))
}

/// Reading back a stored `u32` gives the integer that was stored.
pub proof fn lemma_u32_le(x: u32)
    ensures
        u32_le(x).len() == 4,
        spec_u32_from_le_bytes(u32_le(x)) == x,
{
    lemma_auto_spec_u32_to_from_le_bytes();
    assert(spec_u32_to_le_bytes(x).len() == 4);
}

/// Reading back a stored `i32` gives the integer that was stored.
pub proof fn lemma_i32_le(x: i32)
    ensures
        i32_le(x).len() == 4,
        u32_to_i32(spec_u32_from_le_bytes(i32_le(x))) == x,
{
    lemma_auto_spec_u32_to_from_le_bytes();
    assert(spec_u32_to_le_bytes(i32_to_u32(x)).len() == 4);
}

/// Reading back a stored `i128` gives the integer that was stored.
pub proof fn lemma_i128_le(x: i128)
    ensures
        i128_le(x).len() == 16,
        u128_to_i128(spec_u128_from_le_bytes(i128_le(x))) == x,
{
    lemma_auto_spec_u128_to_from_le_bytes();
    assert(spec_u128_to_le_bytes(i128_to_u128(x)).len() == 16);
}

/// Padding stays below the alignment and reaches a multiple of it.
pub proof fn lemma_padding(pos: int, align: int)
    requires
        0 <= pos,
        1 <= align,
    ensures
        0 <= padding(pos, align) < align,
        align_up(pos, align) % align == 0,
        pos % align == 0 ==> padding(pos, align) == 0,
{
    let rem = pos % align;
    if rem == 0 {
        assert(padding(pos, align) == 0) by (nonlinear_arith)
            requires
                pos % align == 0,
                1 <= align,
        ;
    } else {
        assert((align - rem) % align == align - rem) by (nonlinear_arith)
            requires
                0 < rem < align,
        ;
        assert((pos + (align - rem)) % align == 0) by (nonlinear_arith)
            requires
                rem == pos % align,
                0 < rem < align,
                0 <= pos,
        ;
    }
}

/// The number of bytes from `len` to the next multiple of `align`.
pub fn padding_for(len: usize, align: usize) -> (r: usize)
    requires
        1 <= align,
    ensures
        r == padding(len as int, align as int),
        r < align,
{
    proof {
        lemma_padding(len as int, align as int);
    }
    let rem: usize = len % align;
    if rem == 0 {
        0
    } else {
        assert((align - rem) % (align as int) == align - rem) by (nonlinear_arith)
            requires
                0 < rem < align,
        ;
        align - rem
    }
}

/// Appends `count` zero bytes to `out`.
pub fn put_zeros(out: &mut Vec<u8>, count: usize)
    ensures
        final(out)@ == old(out)@ + zeros(count as int),
{
    let mut done: usize = 0;
    while done < count
        invariant
            done <= count,
            out@ == old(out)@ + zeros(done as int),
        decreases count - done,
    {
        out.push(0u8);
        done += 1;
        assert(out@ =~= old(out)@ + zeros(done as int));
    }
}

/// Appends `bytes` to `out`.
pub(crate) fn put_bytes(out: &mut Vec<u8>, bytes: &[u8])
    ensures
        final(out)@ == old(out)@ + bytes@,
{
    let mut done: usize = 0;
    while done < bytes.len()
        invariant
            done <= bytes.len(),
            out@ == old(out)@ + bytes@.subrange(0, done as int),
        decreases bytes.len() - done,
    {
        out.push(bytes[done]);
        done += 1;
        assert(out@ =~= old(out)@ + bytes@.subrange(0, done as int));
    }
    assert(bytes@.subrange(0, done as int) =~= bytes@);
}

/// Appends the four bytes of `x` to `out`.
pub(crate) fn put_u32(out: &mut Vec<u8>, x: u32)
    ensures
        final(out)@ == old(out)@ + u32_le(x),
{
    let mut bytes = u32_to_le_bytes(x);
    out.append(&mut bytes);
}

/// Appends the four bytes of `x` to `out`.
pub(crate) fn put_i32(out: &mut Vec<u8>, x: i32)
    ensures
        final(out)@ == old(out)@ + i32_le(x),
{
    let wide: i64 = x as i64;
    let unsigned: u32 = if wide >= 0 {
        wide as u32
    } else {
        (wide + 0x1_0000_0000) as u32
    };
    let mut bytes = u32_to_le_bytes(unsigned);
    out.append(&mut bytes);
}

/// Appends the sixteen bytes of `x` to `out`.
pub(crate) fn put_i128(out: &mut Vec<u8>, x: i128)
    ensures
        final(out)@ == old(out)@ + i128_le(x),
{
    let unsigned: u128 = if x >= 0 {
        x as u128
    } else {
        ((x + i128::MAX) + 1) as u128 + 0x8000_0000_0000_0000_0000_0000_0000_0000u128
    };
    let mut bytes = u128_to_le_bytes(unsigned);
    out.append(&mut bytes);
}

/// Reads the unsigned integer stored at `pos`.
pub(crate) fn get_u32(buf: &[u8], pos: usize) -> (r: u32)
    requires
        pos + 4 <= buf@.len(),
    ensures
        r == u32_at(buf@, pos as int),
{
    let len: usize = buf.len();
    u32_from_le_bytes(slice_subrange(buf, pos, pos + 4))
}

/// Reads the signed integer stored at `pos`.
pub(crate) fn get_i32(buf: &[u8], pos: usize) -> (r: i32)
    requires
        pos + 4 <= buf@.len(),
    ensures
        r == i32_at(buf@, pos as int),
{
    let len: usize = buf.len();
    let unsigned: u32 = u32_from_le_bytes(slice_subrange(buf, pos, pos + 4));
    if unsigned < 0x8000_0000 {
        unsigned as i32
    } else {
        (unsigned as i64 - 0x1_0000_0000) as i32
    }
}

/// Reads the signed integer stored at `pos`.
pub(crate) fn get_i128(buf: &[u8], pos: usize) -> (r: i128)
    requires
        pos + 16 <= buf@.len(),
    ensures
        r == i128_at(buf@, pos as int),
{
    let len: usize = buf.len();
    let unsigned: u128 = u128_from_le_bytes(slice_subrange(buf, pos, pos + 16));
    if unsigned <= 0x7FFF_FFFF_FFFF_FFFF_FFFF_FFFF_FFFF_FFFFu128 {
        unsigned as i128
    } else {
        (unsigned - 0x8000_0000_0000_0000_0000_0000_0000_0000u128) as i128 + i128::MIN
    }
}

} // verus!
