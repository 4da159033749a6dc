//! Variable-length numbers: seven bits to a byte, least significant first,
//! the top bit of a byte set when another byte follows.

use vstd::prelude::*;

verus! {

/// The number that starts at `off`, given the bits `acc` read so far below
/// bit `shift`, and the offset behind it. There is none where the buffer ends
/// within the number, or where the number does not fit 64 bits: it has
/// at most ten bytes, of which the tenth holds bit 63 alone (or, in a signed
/// number, seven copies of the sign). A signed number that ends below bit 63
/// is extended by its sign.
pub open spec fn leb_from(buf: Seq<u8>, off: int, shift: u64, acc: u64, signed: bool) -> Option<
    (u64, int),
>
    decreases buf.len() - off,
{
    if off < 0 || off >= buf.len() {
        None
    } else {
        let b = buf[off];
        let k = (b & 0x7f) as u64;
        if shift > 63 {
            None
        } else if shift == 63 && k > 1 && !(signed && k == 0x7f) {
            None
        } else {
            let acc2 = acc | (k << shift);
            if b & 0x80 != 0 {
                leb_from(buf, off + 1, (shift + 7) as u64, acc2, signed)
            } else if signed && b & 0x40 != 0 && shift < 57 {
                Some((acc2 | (!0u64 << ((shift + 7) as u64)), off + 1))
            } else {
                Some((acc2, off + 1))
            }
        }
    }
}

/// The number that starts at `off`, and the offset behind it.
pub open spec fn leb_at(buf: Seq<u8>, off: int, signed: bool) -> Option<(u64, int)> {
    leb_from(buf, off, 0, 0, signed)
}

/// A number takes at least one byte and ends within the buffer.
pub proof fn lemma_leb_from(buf: Seq<u8>, off: int, shift: u64, acc: u64, signed: bool)
    ensures
        match leb_from(buf, off, shift, acc, signed) {
            Some((_, next)) => 0 <= off < next <= buf.len(),
            None => true,
        },
    decreases buf.len() - off,
{
    if 0 <= off < buf.len() && shift <= 63 && buf[off] & 0x80 != 0 {
        lemma_leb_from(
            buf,
            off + 1,
            (shift + 7) as u64,
            acc | (((buf[off] & 0x7f) as u64) << shift),
            signed,
        );
    }
}

/// A byte below 0x80 is an unsigned number by itself.
pub proof fn lemma_leb_single(buf: Seq<u8>, off: int)
    requires
        0 <= off < buf.len(),
        buf[off] < 0x80,
    ensures
        leb_at(buf, off, false) == Some((buf[off] as u64, off + 1)),
{
    let b = buf[off];
    assert(b & 0x80 == 0 && 0u64 | (((b & 0x7f) as u64) << 0u64) == b as u64) by (bit_vector)
        requires
            b < 0x80,
    ;
}

/// Reads the number that starts at `off`.
pub fn read_leb128(buf: &[u8], off: usize, signed: bool) -> (r: Option<(u64, usize)>)
    ensures
        match leb_at(buf@, off as int, signed) {
            Some((v, next)) => r is Some && r->Some_0.0 == v && r->Some_0.1 as int == next && off
                < next <= buf@.len(),
            None => r is None,
        },
{
    assert(buf@.len() == buf.len());
    let mut pos: usize = off;
    let mut shift: u64 = 0;
    let mut acc: u64 = 0;
    proof {
        lemma_leb_from(buf@, off as int, 0, 0, signed);
    }
    loop
        invariant
            off <= pos,
            shift <= 70,
            buf@.len() == buf.len(),
            leb_from(buf@, pos as int, shift, acc, signed) == leb_at(buf@, off as int, signed),
            match leb_at(buf@, off as int, signed) {
                Some((_, next)) => off < next <= buf@.len(),
                None => true,
            },
        decreases buf@.len() - pos,
    {
        if pos >= buf.len() {
            return None;
        }
        let b = buf[pos];
        let k = (b & 0x7f) as u64;
        if shift > 63 {
            return None;
        }
        if shift == 63 && k > 1 && !(signed && k == 0x7f) {
            return None;
        }
        let acc2 = acc | (k << shift);
        if b & 0x80 != 0 {
            pos = pos + 1;
            shift = shift + 7;
            acc = acc2;
        } else if signed && b & 0x40 != 0 && shift < 57 {
            return Some((acc2 | (!0u64 << (shift + 7)), pos + 1));
        } else {
            return Some((acc2, pos + 1));
        }
    }
}

} // verus!
