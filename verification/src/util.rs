//! Byte order, byte swapping and fixed-width integer codecs.

use vstd::prelude::*;

verus! {

/// The byte order of a record on disk.
#[derive(Clone, Copy, Debug, PartialEq, Eq, Structural)]
pub enum Endian {
    BigEndian,
    LittleEndian,
}

/// The value of `x` with its two bytes exchanged.
pub open spec fn swapped16(x: u16) -> u16 {
    (x << 8) | (x >> 8)
}

/// The value of `x` with its four bytes in reverse order.
pub open spec fn swapped32(x: u32) -> u32 {
    (x << 24) | ((x & 0xff00) << 8) | ((x >> 8) & 0xff00) | (x >> 24)
}

/// The value of `x` with its eight bytes in reverse order.
pub open spec fn swapped64(x: u64) -> u64 {
    (x << 56) | ((x & 0xff00) << 40) | ((x & 0xff_0000) << 24) | ((x & 0xff00_0000) << 8) | ((x
        >> 8) & 0xff00_0000) | ((x >> 24) & 0xff_0000) | ((x >> 40) & 0xff00) | (x >> 56)
}

#[inline]
pub fn bswap64(x: u64) -> (r: u64)
    ensures
        r == swapped64(x),
{
    (x << 56) | ((x & 0xff00) << 40) | ((x & 0xff_0000) << 24) | ((x & 0xff00_0000) << 8) | ((x
        >> 8) & 0xff00_0000) | ((x >> 24) & 0xff_0000) | ((x >> 40) & 0xff00) | (x >> 56)
}

#[inline]
pub fn bswap32(x: u32) -> (r: u32)
    ensures
        r == swapped32(x),
{
    (x << 24) | ((x & 0xff00) << 8) | ((x >> 8) & 0xff00) | (x >> 24)
}

#[inline]
pub fn bswap16(x: u16) -> (r: u16)
    ensures
        r == swapped16(x),
{
    (x << 8) | (x >> 8)
}

/// Swapping twice gives the value back, at each width.
pub proof fn lemma_swap_involution(a: u16, b: u32, c: u64)
    ensures
        swapped16(swapped16(a)) == a,
        swapped32(swapped32(b)) == b,
        swapped64(swapped64(c)) == c,
{
    assert(swapped16(swapped16(a)) == a) by (bit_vector);
    assert(swapped32(swapped32(b)) == b) by (bit_vector);
    assert(swapped64(swapped64(c)) == c) by (bit_vector);
}

/// Values whose bytes can be put in reverse order in place.
pub trait Swap: Sized {
    /// The value with its bytes in reverse order.
    spec fn swapped(self) -> Self;

    fn bswap(&mut self)
        ensures
            *final(self) == old(self).swapped(),
    ;

    /// Swaps when the data is big-endian: the in-memory form is little-endian.
    fn bswap_from(&mut self, end: Endian)
        ensures
            *final(self) == (if end == Endian::BigEndian {
                old(self).swapped()
            } else {
                *old(self)
            }),
    {
        if end == Endian::BigEndian {
            self.bswap()
        }
    }
}

impl Swap for u64 {
    open spec fn swapped(self) -> u64 {
        swapped64(self)
    }

    fn bswap(&mut self) {
        *self = bswap64(*self);
    }
}

impl Swap for u32 {
    open spec fn swapped(self) -> u32 {
        swapped32(self)
    }

    fn bswap(&mut self) {
        *self = bswap32(*self);
    }
}

impl Swap for i32 {
    open spec fn swapped(self) -> i32 {
        swapped32(self as u32) as i32
    }

    fn bswap(&mut self) {
        *self = bswap32(*self as u32) as i32;
    }
}

impl Swap for i64 {
    open spec fn swapped(self) -> i64 {
        swapped64(self as u64) as i64
    }

    fn bswap(&mut self) {
        *self = bswap64(*self as u64) as i64;
    }
}

impl Swap for u16 {
    open spec fn swapped(self) -> u16 {
        swapped16(self)
    }

    fn bswap(&mut self) {
        *self = bswap16(*self);
    }
}

impl Swap for i16 {
    open spec fn swapped(self) -> i16 {
        swapped16(self as u16) as i16
    }

    fn bswap(&mut self) {
        *self = bswap16(*self as u16) as i16;
    }
}

impl Swap for u8 {
    open spec fn swapped(self) -> u8 {
        self
    }

    fn bswap(&mut self) {
    }
}

impl Swap for i8 {
    open spec fn swapped(self) -> i8 {
        self
    }

    fn bswap(&mut self) {
    }
}

/// A 16-bit value from two bytes in the given order.
pub open spec fn u16_from(b: Seq<u8>, end: Endian) -> u16
    recommends
        b.len() == 2,
{
    match end {
        Endian::LittleEndian => (b[0] as u16) | ((b[1] as u16) << 8),
        Endian::BigEndian => (b[1] as u16) | ((b[0] as u16) << 8),
    }
}

/// A 32-bit value from four bytes in the given order.
pub open spec fn u32_from(b: Seq<u8>, end: Endian) -> u32
    recommends
        b.len() == 4,
{
    match end {
        Endian::LittleEndian => (b[0] as u32) | ((b[1] as u32) << 8) | ((b[2] as u32) << 16) | ((
        b[3] as u32) << 24),
        Endian::BigEndian => (b[3] as u32) | ((b[2] as u32) << 8) | ((b[1] as u32) << 16) | ((
        b[0] as u32) << 24),
    }
}

/// A 64-bit value from eight bytes in the given order.
pub open spec fn u64_from(b: Seq<u8>, end: Endian) -> u64
    recommends
        b.len() == 8,
{
    match end {
        Endian::LittleEndian => (u32_from(b.subrange(0, 4), end) as u64) | ((u32_from(
            b.subrange(4, 8),
            end,
        ) as u64) << 32),
        Endian::BigEndian => (u32_from(b.subrange(4, 8), end) as u64) | ((u32_from(
            b.subrange(0, 4),
            end,
        ) as u64) << 32),
    }
}

/// The two bytes of a 16-bit value in the given order.
pub open spec fn u16_bytes(x: u16, end: Endian) -> Seq<u8> {
    match end {
        Endian::LittleEndian => seq![(x & 0xff) as u8, (x >> 8) as u8],
        Endian::BigEndian => seq![(x >> 8) as u8, (x & 0xff) as u8],
    }
}

/// The four bytes of a 32-bit value in the given order.
pub open spec fn u32_bytes(x: u32, end: Endian) -> Seq<u8> {
    match end {
        Endian::LittleEndian => seq![
            (x & 0xff) as u8,
            ((x >> 8) & 0xff) as u8,
            ((x >> 16) & 0xff) as u8,
            (x >> 24) as u8,
        ],
        Endian::BigEndian => seq![
            (x >> 24) as u8,
            ((x >> 16) & 0xff) as u8,
            ((x >> 8) & 0xff) as u8,
            (x & 0xff) as u8,
        ],
    }
}

/// The eight bytes of a 64-bit value in the given order.
pub open spec fn u64_bytes(x: u64, end: Endian) -> Seq<u8> {
    match end {
        Endian::LittleEndian => u32_bytes((x & 0xffff_ffff) as u32, end) + u32_bytes(
            (x >> 32) as u32,
            end,
        ),
        Endian::BigEndian => u32_bytes((x >> 32) as u32, end) + u32_bytes(
            (x & 0xffff_ffff) as u32,
            end,
        ),
    }
}

/// Decoding what was encoded gives the value back.
pub proof fn lemma_u16_round_trip(x: u16, end: Endian)
    ensures
        u16_bytes(x, end).len() == 2,
        u16_from(u16_bytes(x, end), end) == x,
{
    assert(((x & 0xff) as u8 as u16) | (((x >> 8) as u8 as u16) << 8) == x) by (bit_vector);
}

/// Encoding what was decoded gives the bytes back.
pub proof fn lemma_u16_bytes_round_trip(b: Seq<u8>, end: Endian)
    requires
        b.len() == 2,
    ensures
        u16_bytes(u16_from(b, end), end) == b,
{
    let lo = if end == Endian::LittleEndian {
        b[0]
    } else {
        b[1]
    };
    let hi = if end == Endian::LittleEndian {
        b[1]
    } else {
        b[0]
    };
    let x = (lo as u16) | ((hi as u16) << 8);
    assert((x & 0xff) as u8 == lo && (x >> 8) as u8 == hi) by (bit_vector)
        requires
            x == (lo as u16) | ((hi as u16) << 8),
    ;
    assert(u16_bytes(u16_from(b, end), end) =~= b);
}

/// Decoding what was encoded gives the value back.
pub proof fn lemma_u32_round_trip(x: u32, end: Endian)
    ensures
        u32_bytes(x, end).len() == 4,
        u32_from(u32_bytes(x, end), end) == x,
{
    assert(((x & 0xff) as u8 as u32) | ((((x >> 8) & 0xff) as u8 as u32) << 8) | ((((x >> 16)
        & 0xff) as u8 as u32) << 16) | (((x >> 24) as u8 as u32) << 24) == x) by (bit_vector);
}

/// Encoding what was decoded gives the bytes back.
pub proof fn lemma_u32_bytes_round_trip(b: Seq<u8>, end: Endian)
    requires
        b.len() == 4,
    ensures
        u32_bytes(u32_from(b, end), end) == b,
{
    let (b0, b1, b2, b3) = if end == Endian::LittleEndian {
        (b[0], b[1], b[2], b[3])
    } else {
        (b[3], b[2], b[1], b[0])
    };
    let x = (b0 as u32) | ((b1 as u32) << 8) | ((b2 as u32) << 16) | ((b3 as u32) << 24);
    assert((x & 0xff) as u8 == b0 && ((x >> 8) & 0xff) as u8 == b1 && ((x >> 16) & 0xff) as u8
        == b2 && (x >> 24) as u8 == b3) by (bit_vector)
        requires
            x == (b0 as u32) | ((b1 as u32) << 8) | ((b2 as u32) << 16) | ((b3 as u32) << 24),
    ;
    assert(u32_bytes(u32_from(b, end), end) =~= b);
}

/// Decoding what was encoded gives the value back.
pub proof fn lemma_u64_round_trip(x: u64, end: Endian)
    ensures
        u64_bytes(x, end).len() == 8,
        u64_from(u64_bytes(x, end), end) == x,
{
    let lo = (x & 0xffff_ffff) as u32;
    let hi = (x >> 32) as u32;
    lemma_u32_round_trip(lo, end);
    lemma_u32_round_trip(hi, end);
    let e = u64_bytes(x, end);
    if end == Endian::LittleEndian {
        assert(e.subrange(0, 4) =~= u32_bytes(lo, end));
        assert(e.subrange(4, 8) =~= u32_bytes(hi, end));
    } else {
        assert(e.subrange(0, 4) =~= u32_bytes(hi, end));
        assert(e.subrange(4, 8) =~= u32_bytes(lo, end));
    }
    assert((lo as u64) | ((hi as u64) << 32) == x) by (bit_vector)
        requires
            lo == (x & 0xffff_ffff) as u32,
            hi == (x >> 32) as u32,
    ;
}

/// Encoding what was decoded gives the bytes back.
pub proof fn lemma_u64_bytes_round_trip(b: Seq<u8>, end: Endian)
    requires
        b.len() == 8,
    ensures
        u64_bytes(u64_from(b, end), end) == b,
{
    let first = u32_from(b.subrange(0, 4), end);
    let second = u32_from(b.subrange(4, 8), end);
    lemma_u32_bytes_round_trip(b.subrange(0, 4), end);
    lemma_u32_bytes_round_trip(b.subrange(4, 8), end);
    let (lo, hi) = if end == Endian::LittleEndian {
        (first, second)
    } else {
        (second, first)
    };
    let x = (lo as u64) | ((hi as u64) << 32);
    assert((x & 0xffff_ffff) as u32 == lo && (x >> 32) as u32 == hi) by (bit_vector)
        requires
            x == (lo as u64) | ((hi as u64) << 32),
    ;
    assert(u64_bytes(u64_from(b, end), end) =~= b);
}

/// The 16-bit value at `off` in `buf`.
pub open spec fn get_u16(buf: Seq<u8>, off: int, end: Endian) -> u16
    recommends
        0 <= off,
        off + 2 <= buf.len(),
{
    u16_from(buf.subrange(off, off + 2), end)
}

/// The 32-bit value at `off` in `buf`.
pub open spec fn get_u32(buf: Seq<u8>, off: int, end: Endian) -> u32
    recommends
        0 <= off,
        off + 4 <= buf.len(),
{
    u32_from(buf.subrange(off, off + 4), end)
}

/// The 64-bit value at `off` in `buf`.
pub open spec fn get_u64(buf: Seq<u8>, off: int, end: Endian) -> u64
    recommends
        0 <= off,
        off + 8 <= buf.len(),
{
    u64_from(buf.subrange(off, off + 8), end)
}

/// `buf` with the bytes from `off` on replaced by `bytes`.
pub open spec fn patched(buf: Seq<u8>, off: int, bytes: Seq<u8>) -> Seq<u8>
    recommends
        0 <= off,
        off + bytes.len() <= buf.len(),
{
    buf.subrange(0, off) + bytes + buf.subrange(off + bytes.len(), buf.len() as int)
}

pub fn read_u16(buf: &[u8], off: usize, end: Endian) -> (r: u16)
    requires
        off + 2 <= buf@.len(),
    ensures
        r == get_u16(buf@, off as int, end),
{
    let b0 = buf[off] as u16;
    let b1 = buf[off + 1] as u16;
    match end {
        Endian::LittleEndian => b0 | (b1 << 8),
        Endian::BigEndian => b1 | (b0 << 8),
    }
}

pub fn read_u32(buf: &[u8], off: usize, end: Endian) -> (r: u32)
    requires
        off + 4 <= buf@.len(),
    ensures
        r == get_u32(buf@, off as int, end),
{
    let b0 = buf[off] as u32;
    let b1 = buf[off + 1] as u32;
    let b2 = buf[off + 2] as u32;
    let b3 = buf[off + 3] as u32;
    match end {
        Endian::LittleEndian => b0 | (b1 << 8) | (b2 << 16) | (b3 << 24),
        Endian::BigEndian => b3 | (b2 << 8) | (b1 << 16) | (b0 << 24),
    }
}

pub fn read_u64(buf: &[u8], off: usize, end: Endian) -> (r: u64)
    requires
        off + 8 <= buf@.len(),
    ensures
        r == get_u64(buf@, off as int, end),
{
    assert(buf@.len() == buf.len());
    let first = read_u32(buf, off, end) as u64;
    let second = read_u32(buf, off + 4, end) as u64;
    proof {
        let b = buf@.subrange(off as int, off + 8);
        assert(b.subrange(0, 4) =~= buf@.subrange(off as int, off + 4));
        assert(b.subrange(4, 8) =~= buf@.subrange(off + 4, off + 8));
    }
    match end {
        Endian::LittleEndian => first | (second << 32),
        Endian::BigEndian => second | (first << 32),
    }
}

/// Appends the two bytes of `x`.
pub fn write_u16(out: &mut Vec<u8>, x: u16, end: Endian)
    ensures
        final(out)@ == old(out)@ + u16_bytes(x, end),
{
    let lo = (x & 0xff) as u8;
    let hi = (x >> 8) as u8;
    match end {
        Endian::LittleEndian => {
            out.push(lo);
            out.push(hi);
        },
        Endian::BigEndian => {
            out.push(hi);
            out.push(lo);
        },
    }
    assert(out@ =~= old(out)@ + u16_bytes(x, end));
}

/// Appends the four bytes of `x`.
pub fn write_u32(out: &mut Vec<u8>, x: u32, end: Endian)
    ensures
        final(out)@ == old(out)@ + u32_bytes(x, end),
{
    let b0 = (x & 0xff) as u8;
    let b1 = ((x >> 8) & 0xff) as u8;
    let b2 = ((x >> 16) & 0xff) as u8;
    let b3 = (x >> 24) as u8;
    match end {
        Endian::LittleEndian => {
            out.push(b0);
            out.push(b1);
            out.push(b2);
            out.push(b3);
        },
        Endian::BigEndian => {
            out.push(b3);
            out.push(b2);
            out.push(b1);
            out.push(b0);
        },
    }
    assert(out@ =~= old(out)@ + u32_bytes(x, end));
}

/// Appends the eight bytes of `x`.
pub fn write_u64(out: &mut Vec<u8>, x: u64, end: Endian)
    ensures
        final(out)@ == old(out)@ + u64_bytes(x, end),
{
    let lo = (x & 0xffff_ffff) as u32;
    let hi = (x >> 32) as u32;
    match end {
        Endian::LittleEndian => {
            write_u32(out, lo, end);
            write_u32(out, hi, end);
        },
        Endian::BigEndian => {
            write_u32(out, hi, end);
            write_u32(out, lo, end);
        },
    }
    assert(out@ =~= old(out)@ + u64_bytes(x, end));
}

/// Appends a copy of `src`.
pub fn append_bytes(out: &mut Vec<u8>, src: &[u8])
    ensures
        final(out)@ == old(out)@ + src@,
{
    let mut i: usize = 0;
    while i < src.len()
        invariant
            i <= src@.len(),
            out@ == old(out)@ + src@.subrange(0, i as int),
        decreases src@.len() - i,
    {
        out.push(src[i]);
        i += 1;
        assert(out@ =~= old(out)@ + src@.subrange(0, i as int));
    }
    assert(src@.subrange(0, i as int) =~= src@);
}

/// Appends `n` zero bytes.
pub fn append_zeros(out: &mut Vec<u8>, n: usize)
    ensures
        final(out)@ == old(out)@ + Seq::new(n as nat, |i: int| 0u8),
{
    let mut i: usize = 0;
    while i < n
        invariant
            i <= n,
            out@ == old(out)@ + Seq::new(i as nat, |j: int| 0u8),
        decreases n - i,
    {
        out.push(0u8);
        i += 1;
        assert(out@ =~= old(out)@ + Seq::new(i as nat, |j: int| 0u8));
    }
}

/// The bytes from `from` up to `to`, when that range lies in `buf`.
pub open spec fn slice_of(buf: Seq<u8>, from: int, to: int) -> Option<Seq<u8>> {
    if 0 <= from <= to <= buf.len() {
        Some(buf.subrange(from, to))
    } else {
        None
    }
}

/// A bounds-checked sub-slice.
pub fn slice_opt(buf: &[u8], from: usize, to: usize) -> (r: Option<&[u8]>)
    ensures
        match slice_of(buf@, from as int, to as int) {
            Some(s) => r is Some && r->Some_0@ == s,
            None => r is None,
        },
{
    if from <= to && to <= buf.len() {
        Some(vstd::slice::slice_subrange(buf, from, to))
    } else {
        None
    }
}

/// Where the first NUL at or after `from` stands, or the length when there is
/// none.
pub open spec fn nul_from(s: Seq<u8>, from: int) -> int
    decreases s.len() - from,
{
    if from < 0 || from >= s.len() {
        s.len() as int
    } else if s[from] == 0 {
        from
    } else {
        nul_from(s, from + 1)
    }
}

/// `nul_from` gives the least index at which a NUL stands.
pub proof fn lemma_nul_from(s: Seq<u8>, from: int)
    requires
        0 <= from <= s.len(),
    ensures
        from <= nul_from(s, from) <= s.len(),
        forall|i: int| from <= i < nul_from(s, from) ==> s[i] != 0,
        nul_from(s, from) < s.len() ==> s[nul_from(s, from)] == 0,
    decreases s.len() - from,
{
    if from < s.len() && s[from] != 0 {
        lemma_nul_from(s, from + 1);
    }
}

/// The string that starts at `off`: the bytes before the first NUL, or all
/// that is left.
pub open spec fn cstr_at(s: Seq<u8>, off: int) -> Seq<u8>
    recommends
        0 <= off <= s.len(),
{
    s.subrange(off, nul_from(s, off))
}

/// Whether the string that starts at `off` is closed by a NUL.
pub open spec fn cstr_terminated(s: Seq<u8>, off: int) -> bool {
    0 <= off && nul_from(s, off) < s.len()
}

/// The index of the first NUL at or after `off`, or the length.
pub fn find_nul(buf: &[u8], off: usize) -> (r: usize)
    requires
        off <= buf@.len(),
    ensures
        r == nul_from(buf@, off as int),
        off <= r <= buf@.len(),
{
    let mut i: usize = off;
    while i < buf.len() && buf[i] != 0
        invariant
            off <= i <= buf@.len(),
            nul_from(buf@, off as int) == nul_from(buf@, i as int),
        decreases buf@.len() - i,
    {
        i += 1;
    }
    i
}

/// The string at the start of `buf`, up to its NUL or the end.
pub fn from_cstr(buf: &[u8]) -> (r: &[u8])
    ensures
        r@ == cstr_at(buf@, 0),
{
    let n = find_nul(buf, 0);
    vstd::slice::slice_subrange(buf, 0, n)
}

/// The string at the start of `buf`, when a NUL closes it.
pub fn from_cstr_strict(buf: &[u8]) -> (r: Option<&[u8]>)
    ensures
        match r {
            Some(s) => cstr_terminated(buf@, 0) && s@ == cstr_at(buf@, 0),
            None => !cstr_terminated(buf@, 0),
        },
{
    let n = find_nul(buf, 0);
    if n < buf.len() {
        Some(vstd::slice::slice_subrange(buf, 0, n))
    } else {
        None
    }
}

/// An owned copy of `buf[from..to]`.
pub fn copy_range(buf: &[u8], from: usize, to: usize) -> (r: Vec<u8>)
    requires
        from <= to <= buf@.len(),
    ensures
        r@ == buf@.subrange(from as int, to as int),
{
    vstd::slice::slice_to_vec(vstd::slice::slice_subrange(buf, from, to))
}

/// Whether two byte strings hold the same bytes.
pub fn bytes_eq(a: &[u8], b: &[u8]) -> (r: bool)
    ensures
        r == (a@ == b@),
{
    if a.len() != b.len() {
        return false;
    }
    let mut i: usize = 0;
    while i < a.len()
        invariant
            i <= a@.len(),
            a@.len() == b@.len(),
            a@.subrange(0, i as int) == b@.subrange(0, i as int),
        decreases a@.len() - i,
    {
        if a[i] != b[i] {
            assert(a@[i as int] != b@[i as int]);
            return false;
        }
        i += 1;
        assert(a@.subrange(0, i as int) =~= a@.subrange(0, i - 1).push(a@[i - 1]));
        assert(b@.subrange(0, i as int) =~= b@.subrange(0, i - 1).push(b@[i - 1]));
    }
    assert(a@ =~= a@.subrange(0, i as int));
    assert(b@ =~= b@.subrange(0, i as int));
    true
}

/// `x` rounded up to a multiple of `align`.
pub open spec fn aligned_up(x: int, align: int) -> int
    recommends
        align > 0,
{
    if x % align == 0 {
        x
    } else {
        x + (align - x % align)
    }
}

/// Values that are kept in a file as a fixed number of bytes.
pub trait FromBytes: Sized {
    /// The number of bytes that a value takes.
    spec fn byte_size() -> nat;

    /// The value that the bytes hold in the given order.
    spec fn of_bytes(b: Seq<u8>, end: Endian) -> Self;

    fn from_bytes(slice: &[u8], end: Endian) -> (r: Self)
        requires
            slice@.len() == Self::byte_size(),
        ensures
            r == Self::of_bytes(slice@, end),
    ;
}

impl FromBytes for u8 {
    open spec fn byte_size() -> nat {
        1
    }

    open spec fn of_bytes(b: Seq<u8>, end: Endian) -> u8 {
        b[0]
    }

    fn from_bytes(slice: &[u8], end: Endian) -> u8 {
        slice[0]
    }
}

impl FromBytes for u16 {
    open spec fn byte_size() -> nat {
        2
    }

    open spec fn of_bytes(b: Seq<u8>, end: Endian) -> u16 {
        get_u16(b, 0, end)
    }

    fn from_bytes(slice: &[u8], end: Endian) -> u16 {
        read_u16(slice, 0, end)
    }
}

impl FromBytes for u32 {
    open spec fn byte_size() -> nat {
        4
    }

    open spec fn of_bytes(b: Seq<u8>, end: Endian) -> u32 {
        get_u32(b, 0, end)
    }

    fn from_bytes(slice: &[u8], end: Endian) -> u32 {
        read_u32(slice, 0, end)
    }
}

impl FromBytes for u64 {
    open spec fn byte_size() -> nat {
        8
    }

    open spec fn of_bytes(b: Seq<u8>, end: Endian) -> u64 {
        get_u64(b, 0, end)
    }

    fn from_bytes(slice: &[u8], end: Endian) -> u64 {
        read_u64(slice, 0, end)
    }
}

/// Reads a value from exactly the bytes it takes.
pub fn copy_from_slice<T: FromBytes>(slice: &[u8], end: Endian) -> (r: T)
    requires
        slice@.len() == T::byte_size(),
    ensures
        r == T::of_bytes(slice@, end),
{
    T::from_bytes(slice, end)
}

/// Reading a value in big-endian order gives what reading it in
/// little-endian order and swapping gives.
pub proof fn lemma_swap_is_other_order(b: Seq<u8>)
    ensures
        b.len() == 2 ==> u16_from(b, Endian::BigEndian) == swapped16(
            u16_from(b, Endian::LittleEndian),
        ),
        b.len() == 4 ==> u32_from(b, Endian::BigEndian) == swapped32(
            u32_from(b, Endian::LittleEndian),
        ),
{
    if b.len() == 2 {
        let (b0, b1) = (b[0], b[1]);
        assert(((b1 as u16) | ((b0 as u16) << 8)) == swapped16((b0 as u16) | ((b1 as u16) << 8)))
            by (bit_vector);
    }
    if b.len() == 4 {
        let (b0, b1, b2, b3) = (b[0], b[1], b[2], b[3]);
        assert(((b3 as u32) | ((b2 as u32) << 8) | ((b1 as u32) << 16) | ((b0 as u32) << 24))
            == swapped32((b0 as u32) | ((b1 as u32) << 8) | ((b2 as u32) << 16) | ((b3 as u32)
            << 24))) by (bit_vector);
    }
}

} // verus!
