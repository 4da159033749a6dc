//! The symbol table: the fixed-size symbol records, their codec for both
//! pointer widths, and the symbols they stand for.

use vstd::prelude::*;
use crate::defs::{
    DYNAMIC_LOOKUP_ORDINAL, EXECUTABLE_ORDINAL, MH_OBJECT, NLIST_64_SIZE, NLIST_SIZE, N_ABS,
    N_ARM_THUMB_DEF, N_EXT, N_INDR, N_REF_TO_WEAK, N_SYMBOL_RESOLVER, N_TYPE, N_UNDF,
    N_WEAK_DEF, N_WEAK_REF, SELF_LIBRARY_ORDINAL,
};
use crate::diag::Warning;
use crate::exec::{Arch, SourceLib, Symbol, SymbolValue, SymbolValueView, SymbolView, symbol_views};
use crate::image::{MachO, MachOError, nlist_size_of};
use crate::util::{
    Endian, bytes_eq, copy_range, cstr_at, find_nul, get_u16, get_u32, get_u64,
    lemma_u16_bytes_round_trip, lemma_u16_round_trip, lemma_u32_bytes_round_trip,
    lemma_u32_round_trip, lemma_u64_bytes_round_trip, lemma_u64_round_trip, read_u16,
    read_u32, read_u64, u16_bytes, u32_bytes, u64_bytes, write_u16, write_u32, write_u64,
};

verus! {

/// A symbol record, wide enough for either pointer width.
#[derive(Clone, Copy, Debug, PartialEq, Eq, Structural)]
pub struct Nlist {
    pub n_strx: u32,
    pub n_type: u8,
    pub n_sect: u8,
    pub n_desc: u16,
    pub n_value: u64,
}

impl Default for Nlist {
    fn default() -> (r: Nlist)
        ensures
            r == (Nlist { n_strx: 0, n_type: 0, n_sect: 0, n_desc: 0, n_value: 0 }),
    {
        Nlist { n_strx: 0, n_type: 0, n_sect: 0, n_desc: 0, n_value: 0 }
    }
}

impl Nlist {
    /// The record that 16 bytes hold in a 64-bit image, or 12 bytes in a
    /// 32-bit one.
    pub open spec fn decoded(b: Seq<u8>, end: Endian, is64: bool) -> Nlist
        recommends
            b.len() == nlist_size_of(is64),
    {
        Nlist {
            n_strx: get_u32(b, 0, end),
            n_type: b[4],
            n_sect: b[5],
            n_desc: get_u16(b, 6, end),
            n_value: if is64 {
                get_u64(b, 8, end)
            } else {
                get_u32(b, 8, end) as u64
            },
        }
    }

    /// Whether the record can be written at the given width.
    pub open spec fn fits(self, is64: bool) -> bool {
        is64 || self.n_value <= u32::MAX
    }

    /// The bytes of the record at the given width.
    pub open spec fn encoded(self, end: Endian, is64: bool) -> Seq<u8>
        recommends
            self.fits(is64),
    {
        u32_bytes(self.n_strx, end) + seq![self.n_type, self.n_sect] + u16_bytes(self.n_desc, end)
            + (if is64 {
            u64_bytes(self.n_value, end)
        } else {
            u32_bytes(self.n_value as u32, end)
        })
    }

    /// At one width, a record that is encoded and decoded again is the same
    /// record.
    pub proof fn lemma_round_trip(self, end: Endian, is64: bool)
        requires
            self.fits(is64),
        ensures
            self.encoded(end, is64).len() == nlist_size_of(is64),
            Nlist::decoded(self.encoded(end, is64), end, is64) == self,
    {
        lemma_u32_round_trip(self.n_strx, end);
        lemma_u16_round_trip(self.n_desc, end);
        lemma_u64_round_trip(self.n_value, end);
        lemma_u32_round_trip(self.n_value as u32, end);
        let e = self.encoded(end, is64);
        assert(e.subrange(0, 4) =~= u32_bytes(self.n_strx, end));
        assert(e.subrange(6, 8) =~= u16_bytes(self.n_desc, end));
        if is64 {
            assert(e.subrange(8, 16) =~= u64_bytes(self.n_value, end));
        } else {
            assert(e.subrange(8, 12) =~= u32_bytes(self.n_value as u32, end));
        }
    }

    /// At one width, bytes that are decoded and encoded again are the same
    /// bytes, and the decoded record always fits that width.
    pub proof fn lemma_bytes_round_trip(b: Seq<u8>, end: Endian, is64: bool)
        requires
            b.len() == nlist_size_of(is64),
        ensures
            Nlist::decoded(b, end, is64).fits(is64),
            Nlist::decoded(b, end, is64).encoded(end, is64) == b,
    {
        lemma_u32_bytes_round_trip(b.subrange(0, 4), end);
        lemma_u16_bytes_round_trip(b.subrange(6, 8), end);
        if is64 {
            lemma_u64_bytes_round_trip(b.subrange(8, 16), end);
        } else {
            lemma_u32_bytes_round_trip(b.subrange(8, 12), end);
        }
        assert(Nlist::decoded(b, end, is64).encoded(end, is64) =~= b);
    }
}

/// The records of a symbol table: as many as fit whole.
pub open spec fn symtab_records(table: Seq<u8>, end: Endian, is64: bool) -> Seq<Nlist> {
    let size = nlist_size_of(is64) as int;
    Seq::new(
        (table.len() / size as nat) as nat,
        |i: int| Nlist::decoded(table.subrange(i * size, i * size + size), end, is64),
    )
}

/// The bytes of a list of records at the given width, when every record
/// fits it.
pub open spec fn records_encoded(records: Seq<Nlist>, end: Endian, is64: bool) -> Option<Seq<u8>>
    decreases records.len(),
{
    if records.len() == 0 {
        Some(Seq::empty())
    } else {
        match records_encoded(records.drop_last(), end, is64) {
            Some(b) => if records.last().fits(is64) {
                Some(b + records.last().encoded(end, is64))
            } else {
                None
            },
            None => None,
        }
    }
}

/// Writing a list of records fails exactly when an address in it does not
/// fit the width: never at 64 bits, and at 32 bits when one passes 32 bits.
#[verifier::rlimit(50)]
pub proof fn lemma_records_encoded_fails(records: Seq<Nlist>, end: Endian, is64: bool)
    ensures
        records_encoded(records, end, is64) is None <==> exists|i: int|
            0 <= i < records.len() && !is64 && (#[trigger] records[i]).n_value > u32::MAX,
        records_encoded(records, end, is64) is Some ==> records_encoded(
            records,
            end,
            is64,
        )->Some_0.len() == records.len() * nlist_size_of(is64),
    decreases records.len(),
{
    if records.len() > 0 {
        let front = records.drop_last();
        lemma_records_encoded_fails(front, end, is64);
        if records_encoded(front, end, is64) is None {
            let i = choose|i: int|
                0 <= i < front.len() && !is64 && (#[trigger] front[i]).n_value > u32::MAX;
            assert(records[i] == front[i]);
        } else if !records.last().fits(is64) {
            assert(records[records.len() - 1].n_value > u32::MAX);
        } else {
            records.last().lemma_round_trip(end, is64);
            assert forall|i: int| 0 <= i < records.len() implies !(!is64 && (
            #[trigger] records[i]).n_value > u32::MAX) by {
                if i < front.len() {
                    assert(front[i] == records[i]);
                }
            }
            assert((front.len() + 1) * nlist_size_of(is64) == front.len() * nlist_size_of(is64)
                + nlist_size_of(is64)) by (nonlinear_arith);
        }
    }
}

/// A table of `n` whole records that is decoded and encoded again at the
/// same width is the same bytes.
#[verifier::rlimit(50)]
proof fn lemma_symtab_round_trip_n(table: Seq<u8>, end: Endian, is64: bool, n: nat)
    requires
        table.len() == n * nlist_size_of(is64),
    ensures
        symtab_records(table, end, is64).len() == n,
        records_encoded(symtab_records(table, end, is64), end, is64) == Some(table),
    decreases n,
{
    let size = nlist_size_of(is64) as int;
    vstd::arithmetic::div_mod::lemma_div_by_multiple(n as int, size);
    let recs = symtab_records(table, end, is64);
    assert(recs.len() == n);
    if n == 0 {
        vstd::arithmetic::mul::lemma_mul_basics(size);
        assert(table.len() == 0);
        assert(table =~= Seq::empty());
    } else {
        vstd::arithmetic::mul::lemma_mul_is_distributive_add_other_way(size, n - 1, 1);
        let cut = (n - 1) * size;
        assert(table.len() == cut + size);
        let front = table.subrange(0, cut);
        lemma_symtab_round_trip_n(front, end, is64, (n - 1) as nat);
        let frecs = symtab_records(front, end, is64);
        assert forall|i: int| 0 <= i < n - 1 implies #[trigger] frecs[i] == recs[i] by {
            vstd::arithmetic::mul::lemma_mul_inequality(i + 1, n - 1, size);
            vstd::arithmetic::mul::lemma_mul_is_distributive_add_other_way(size, i, 1);
            assert(front.subrange(i * size, i * size + size) =~= table.subrange(
                i * size,
                i * size + size,
            ));
        }
        assert(frecs =~= recs.drop_last());
        let last = table.subrange(cut, cut + size);
        Nlist::lemma_bytes_round_trip(last, end, is64);
        assert(recs.last() == Nlist::decoded(last, end, is64));
        assert(front + last =~= table);
    }
}

/// A table that is decoded and encoded again at the same width is the same
/// bytes.
pub proof fn lemma_symtab_round_trip(table: Seq<u8>, end: Endian, is64: bool)
    requires
        table.len() % (nlist_size_of(is64) as nat) == 0,
    ensures
        records_encoded(symtab_records(table, end, is64), end, is64) == Some(table),
{
    let size = nlist_size_of(is64) as int;
    vstd::arithmetic::div_mod::lemma_fundamental_div_mod(table.len() as int, size);
    vstd::arithmetic::mul::lemma_mul_is_commutative(size, table.len() as int / size);
    lemma_symtab_round_trip_n(table, end, is64, (table.len() as int / size) as nat);
}

/// A table of 64-bit records cannot be written at 32 bits exactly when the
/// address of one of its records passes 32 bits.
pub proof fn lemma_narrowing_fails(table: Seq<u8>, end: Endian)
    ensures
        records_encoded(symtab_records(table, end, true), end, false) is None <==> exists|i: int|
            0 <= i < symtab_records(table, end, true).len() && (#[trigger] symtab_records(
                table,
                end,
                true,
            )[i]).n_value > u32::MAX,
{
    lemma_records_encoded_fails(symtab_records(table, end, true), end, false);
}

/// Reads one record: 16 bytes are a 64-bit record, 12 a 32-bit one.
pub fn copy_nlist_from_slice(slice: &[u8], end: Endian) -> (r: Nlist)
    requires
        slice@.len() == NLIST_SIZE || slice@.len() == NLIST_64_SIZE,
    ensures
        r == Nlist::decoded(slice@, end, slice@.len() == NLIST_64_SIZE),
{
    assert(slice@.len() == slice.len());
    let is64 = slice.len() == NLIST_64_SIZE;
    Nlist {
        n_strx: read_u32(slice, 0, end),
        n_type: slice[4],
        n_sect: slice[5],
        n_desc: read_u16(slice, 6, end),
        n_value: if is64 {
            read_u64(slice, 8, end)
        } else {
            read_u32(slice, 8, end) as u64
        },
    }
}

/// Appends one record at the given width. A record whose address passes 32
/// bits cannot be written at the 32-bit width: nothing is appended then.
#[verifier::rlimit(50)]
pub fn copy_nlist_to_vec(vec: &mut Vec<u8>, nl: &Nlist, end: Endian, is64: bool) -> (r: Result<
    (),
    MachOError,
>)
    ensures
        nl.fits(is64) ==> r is Ok && final(vec)@ == old(vec)@ + nl.encoded(end, is64),
        !nl.fits(is64) ==> r == Err::<(), MachOError>(MachOError::AddressOverflow) && final(vec)@
            == old(vec)@,
{
    if !is64 && nl.n_value > 0xffff_ffff {
        return Err(MachOError::AddressOverflow);
    }
    write_u32(vec, nl.n_strx, end);
    vec.push(nl.n_type);
    vec.push(nl.n_sect);
    write_u16(vec, nl.n_desc, end);
    if is64 {
        write_u64(vec, nl.n_value, end);
    } else {
        write_u32(vec, nl.n_value as u32, end);
    }
    assert(vec@ =~= old(vec)@ + nl.encoded(end, is64));
    Ok(())
}

/// The name that stands for one that lies outside the string table.
pub open spec fn unknown_name() -> Seq<u8> {
    seq![0x3cu8, 0x3fu8, 0x3eu8]
}

/// The name that a shared cache puts in place of one it has removed.
pub open spec fn redacted_name() -> Seq<u8> {
    seq![0x3cu8, 0x72u8, 0x65u8, 0x64u8, 0x61u8, 0x63u8, 0x74u8, 0x65u8, 0x64u8, 0x3eu8]
}

/// Whether `strx` names a string of the table: 0 stands for the empty name
/// and needs no table.
pub open spec fn strx_in_range(strtab: Seq<u8>, strx: u64) -> bool {
    strx == 0 || strx < strtab.len()
}

/// The string at `strx` in a string table.
pub open spec fn strx_name(strtab: Seq<u8>, strx: u64) -> Seq<u8> {
    if strx == 0 {
        Seq::empty()
    } else if strx < strtab.len() {
        cstr_at(strtab, strx as int)
    } else {
        unknown_name()
    }
}

/// The library that the descriptor of an undefined symbol names.
pub open spec fn source_of_desc(n_desc: u16, is_obj: bool) -> SourceLib {
    let ord = (n_desc >> 8) as u32;
    if is_obj {
        SourceLib::NoLib
    } else if (n_desc as u32 & N_REF_TO_WEAK != 0) || ord == DYNAMIC_LOOKUP_ORDINAL {
        SourceLib::Flat
    } else if ord == SELF_LIBRARY_ORDINAL {
        SourceLib::Self_
    } else if ord == EXECUTABLE_ORDINAL {
        SourceLib::MainExecutable
    } else {
        SourceLib::Ordinal((ord - 1) as u32)
    }
}

/// Whether the record is an indirect symbol, whose value is a string
/// offset.
pub open spec fn is_indirect(nl: Nlist, is_obj: bool) -> bool {
    !(nl.n_desc as u32 & N_SYMBOL_RESOLVER != 0 && is_obj) && nl.n_type as u32 & N_TYPE != N_UNDF
        && nl.n_type as u32 & N_TYPE == N_INDR
}

/// The value of the symbol that a record stands for.
pub open spec fn value_of_nlist(nl: Nlist, strtab: Seq<u8>, is_obj: bool) -> SymbolValueView {
    let n_type = nl.n_type as u32 & N_TYPE;
    let vma = if nl.n_desc as u32 & N_ARM_THUMB_DEF != 0 {
        nl.n_value | 1
    } else {
        nl.n_value
    };
    if nl.n_desc as u32 & N_SYMBOL_RESOLVER != 0 && is_obj {
        SymbolValueView::Resolver(vma, None)
    } else if n_type == N_UNDF {
        SymbolValueView::Undefined(source_of_desc(nl.n_desc, is_obj))
    } else if n_type == N_INDR {
        SymbolValueView::ReExport(strx_name(strtab, nl.n_value))
    } else if n_type == N_ABS {
        SymbolValueView::Abs(vma)
    } else {
        SymbolValueView::Addr(vma)
    }
}

/// The symbol that the record at byte offset `off` of its table stands for.
pub open spec fn symbol_of_nlist(nl: Nlist, strtab: Seq<u8>, is_obj: bool, off: usize) -> SymbolView {
    SymbolView {
        name: strx_name(strtab, nl.n_strx as u64),
        is_public: nl.n_type as u32 & N_EXT != 0,
        is_weak: nl.n_desc as u32 & (N_WEAK_REF | N_WEAK_DEF) != 0,
        val: value_of_nlist(nl, strtab, is_obj),
        size: None,
        private: off,
    }
}

/// The warnings that a record earns: one for each string offset it holds
/// that lies outside the string table.
pub open spec fn nlist_warnings(nl: Nlist, strtab: Seq<u8>, is_obj: bool) -> Seq<Warning> {
    let a: Seq<Warning> = if strx_in_range(strtab, nl.n_strx as u64) {
        seq![]
    } else {
        seq![Warning::SymbolNameOutOfRange]
    };
    let b: Seq<Warning> = if is_indirect(nl, is_obj) && !strx_in_range(strtab, nl.n_value) {
        seq![Warning::SymbolNameOutOfRange]
    } else {
        seq![]
    };
    a + b
}

/// The symbols of `count - i` records of `symtab`, of which the first is
/// record `start + i`, added to `out`. Reading stops with a warning where the
/// table ends before a record does. With `skip_redacted`, records whose name
/// was removed by a shared cache are left out.
pub open spec fn symbols_from(
    symtab: Seq<u8>,
    strtab: Seq<u8>,
    end: Endian,
    is64: bool,
    is_obj: bool,
    skip_redacted: bool,
    start: usize,
    count: usize,
    i: int,
    out: Seq<SymbolView>,
    warnings: Seq<Warning>,
) -> (Seq<SymbolView>, Seq<Warning>)
    decreases count - i,
{
    let size = nlist_size_of(is64) as int;
    let off = (start + i) * size;
    if i < 0 || i >= count {
        (out, warnings)
    } else if off + size > symtab.len() {
        (out, warnings.push(Warning::SymbolTableTruncated))
    } else {
        let nl = Nlist::decoded(symtab.subrange(off, off + size), end, is64);
        let sym = symbol_of_nlist(nl, strtab, is_obj, off as usize);
        symbols_from(
            symtab,
            strtab,
            end,
            is64,
            is_obj,
            skip_redacted,
            start,
            count,
            i + 1,
            if skip_redacted && sym.name == redacted_name() {
                out
            } else {
                out.push(sym)
            },
            warnings + nlist_warnings(nl, strtab, is_obj),
        )
    }
}

/// The symbol that record `t` of a symbol table stands for.
pub open spec fn symbol_of_record(
    symtab: Seq<u8>,
    strtab: Seq<u8>,
    end: Endian,
    is64: bool,
    is_obj: bool,
    t: int,
) -> SymbolView {
    let size = nlist_size_of(is64) as int;
    symbol_of_nlist(
        Nlist::decoded(symtab.subrange(t * size, t * size + size), end, is64),
        strtab,
        is_obj,
        (t * size) as usize,
    )
}

/// Where the table holds all the records asked for and none is left out,
/// the symbols that are added are those of the records, one for each and in
/// their order.
pub proof fn lemma_symbols_from_whole(
    symtab: Seq<u8>,
    strtab: Seq<u8>,
    end: Endian,
    is64: bool,
    is_obj: bool,
    start: usize,
    count: usize,
    i: int,
    out: Seq<SymbolView>,
    warnings: Seq<Warning>,
)
    requires
        0 <= i <= count,
        (start + count) * nlist_size_of(is64) <= symtab.len(),
    ensures
        ({
            let r = symbols_from(
                symtab,
                strtab,
                end,
                is64,
                is_obj,
                false,
                start,
                count,
                i,
                out,
                warnings,
            );
            &&& r.0.len() == out.len() + count - i
            &&& forall|t: int| 0 <= t < out.len() ==> r.0[t] == out[t]
            &&& forall|t: int|
                i <= t < count ==> #[trigger] r.0[out.len() + t - i] == symbol_of_record(
                    symtab,
                    strtab,
                    end,
                    is64,
                    is_obj,
                    start + t,
                )
        }),
    decreases count - i,
{
    let size = nlist_size_of(is64) as int;
    if i < count {
        let off = (start + i) * size;
        vstd::arithmetic::mul::lemma_mul_inequality(start + i + 1, start + count, size);
        vstd::arithmetic::mul::lemma_mul_is_distributive_add_other_way(size, start + i, 1);
        assert(off + size <= symtab.len());
        let nl = Nlist::decoded(symtab.subrange(off, off + size), end, is64);
        let sym = symbol_of_nlist(nl, strtab, is_obj, off as usize);
        assert(sym == symbol_of_record(symtab, strtab, end, is64, is_obj, start + i));
        let out2 = out.push(sym);
        lemma_symbols_from_whole(
            symtab,
            strtab,
            end,
            is64,
            is_obj,
            start,
            count,
            i + 1,
            out2,
            warnings + nlist_warnings(nl, strtab, is_obj),
        );
        let r = symbols_from(
            symtab,
            strtab,
            end,
            is64,
            is_obj,
            false,
            start,
            count,
            i,
            out,
            warnings,
        );
        assert forall|t: int| 0 <= t < out.len() implies r.0[t] == out[t] by {
            assert(out2[t] == out[t]);
        }
        assert forall|t: int| i <= t < count implies #[trigger] r.0[out.len() + t - i]
            == symbol_of_record(symtab, strtab, end, is64, is_obj, start + t) by {
            if t == i {
                assert(r.0[out.len() as int] == out2[out.len() as int]);
            } else {
                assert(r.0[out2.len() + t - (i + 1)] == symbol_of_record(
                    symtab,
                    strtab,
                    end,
                    is64,
                    is_obj,
                    start + t,
                ));
            }
        }
    }
}

fn unknown_name_bytes() -> (r: Vec<u8>)
    ensures
        r@ == unknown_name(),
{
    let mut r: Vec<u8> = Vec::new();
    r.push(0x3c);
    r.push(0x3f);
    r.push(0x3e);
    assert(r@ =~= unknown_name());
    r
}

/// The string at `strx` in a string table; a stand-in, with a warning, when
/// `strx` lies outside it.
pub fn strx_to_name(strtab: &[u8], strx: u64, warnings: &mut Vec<Warning>) -> (r: Vec<u8>)
    ensures
        r@ == strx_name(strtab@, strx),
        final(warnings)@ == old(warnings)@ + (if strx_in_range(strtab@, strx) {
            Seq::<Warning>::empty()
        } else {
            seq![Warning::SymbolNameOutOfRange]
        }),
{
    assert(strtab@.len() == strtab.len());
    if strx == 0 {
        assert(warnings@ =~= old(warnings)@ + Seq::<Warning>::empty());
        Vec::new()
    } else if strx < strtab.len() as u64 {
        assert(warnings@ =~= old(warnings)@ + Seq::<Warning>::empty());
        let n = find_nul(strtab, strx as usize);
        copy_range(strtab, strx as usize, n)
    } else {
        warnings.push(Warning::SymbolNameOutOfRange);
        assert(warnings@ =~= old(warnings)@ + seq![Warning::SymbolNameOutOfRange]);
        unknown_name_bytes()
    }
}

fn is_redacted(name: &[u8]) -> (r: bool)
    ensures
        r == (name@ == redacted_name()),
{
    let lit: [u8; 10] = [0x3c, 0x72, 0x65, 0x64, 0x61, 0x63, 0x74, 0x65, 0x64, 0x3e];
    assert(lit@ =~= redacted_name());
    bytes_eq(name, lit.as_slice())
}

proof fn lemma_symbol_views_push(s: Seq<Symbol>, x: Symbol)
    ensures
        symbol_views(s.push(x)) == symbol_views(s).push(x@),
{
    assert(symbol_views(s.push(x)) =~= symbol_views(s).push(x@));
}

impl MachO {
    /// Adds to `out` the symbols of `count` records of `symtab`, from record
    /// `start` on, with names from `strtab`.
    #[verifier::rlimit(50)]
    pub fn push_nlist_symbols(
        &self,
        symtab: &[u8],
        strtab: &[u8],
        start: usize,
        count: usize,
        skip_redacted: bool,
        out: &mut Vec<Symbol>,
        warnings: &mut Vec<Warning>,
    )
        ensures
            (symbol_views(final(out)@), final(warnings)@) == symbols_from(
                symtab@,
                strtab@,
                self.eb.endian,
                self.is64,
                self.mh.filetype == MH_OBJECT,
                skip_redacted,
                start,
                count,
                0,
                symbol_views(old(out)@),
                old(warnings)@,
            ),
    {
        let end = self.eb.endian;
        let is64 = self.is64;
        let is_obj = self.mh.filetype == MH_OBJECT;
        let size = self.nlist_size();
        assert(symtab@.len() == symtab.len());
        let ghost target = symbols_from(
            symtab@,
            strtab@,
            end,
            is64,
            is_obj,
            skip_redacted,
            start,
            count,
            0,
            symbol_views(out@),
            warnings@,
        );
        if count == 0 {
            return ;
        }
        if start > symtab.len() / size {
            proof {
                vstd::arithmetic::div_mod::lemma_fundamental_div_mod(
                    symtab@.len() as int,
                    size as int,
                );
                vstd::arithmetic::mul::lemma_mul_inequality(
                    symtab@.len() as int / size as int + 1,
                    start as int,
                    size as int,
                );
                vstd::arithmetic::mul::lemma_mul_is_commutative(
                    size as int,
                    symtab@.len() as int / size as int,
                );
                assert((symtab@.len() as int / size as int + 1) * size == (symtab@.len() as int
                    / size as int) * size + size) by (nonlinear_arith);
            }
            warnings.push(Warning::SymbolTableTruncated);
            return ;
        }
        proof {
            vstd::arithmetic::div_mod::lemma_fundamental_div_mod(symtab@.len() as int, size as int);
            vstd::arithmetic::mul::lemma_mul_inequality(
                start as int,
                symtab@.len() as int / size as int,
                size as int,
            );
            vstd::arithmetic::mul::lemma_mul_is_commutative(
                size as int,
                symtab@.len() as int / size as int,
            );
        }
        let mut off: usize = start * size;
        let mut i: usize = 0;
        while i < count
            invariant_except_break
                i <= count,
                off == (start + i) * size,
                off <= symtab@.len(),
                symbols_from(
                    symtab@,
                    strtab@,
                    end,
                    is64,
                    is_obj,
                    skip_redacted,
                    start,
                    count,
                    i as int,
                    symbol_views(out@),
                    warnings@,
                ) == target,
            invariant
                symtab@.len() == symtab.len(),
                size == nlist_size_of(is64),
            ensures
                (symbol_views(out@), warnings@) == target,
            decreases count - i,
        {
            if symtab.len() - off < size {
                warnings.push(Warning::SymbolTableTruncated);
                break ;
            }
            let nl = copy_nlist_from_slice(
                vstd::slice::slice_subrange(symtab, off, off + size),
                end,
            );
            let ghost w0 = warnings@;
            let name = strx_to_name(strtab, nl.n_strx as u64, warnings);
            let n_type = nl.n_type as u32 & N_TYPE;
            let weak = (nl.n_desc as u32 & (N_WEAK_REF | N_WEAK_DEF)) != 0;
            let public = (nl.n_type as u32 & N_EXT) != 0;
            let vma = if nl.n_desc as u32 & N_ARM_THUMB_DEF != 0 {
                nl.n_value | 1
            } else {
                nl.n_value
            };
            let ord = (nl.n_desc >> 8) as u32;
            let ghost w1 = warnings@;
            let val = if nl.n_desc as u32 & N_SYMBOL_RESOLVER != 0 && is_obj {
                SymbolValue::Resolver(vma, None)
            } else if n_type == N_UNDF {
                SymbolValue::Undefined(
                    if is_obj {
                        SourceLib::NoLib
                    } else if (nl.n_desc as u32 & N_REF_TO_WEAK != 0) || ord
                        == DYNAMIC_LOOKUP_ORDINAL {
                        SourceLib::Flat
                    } else if ord == SELF_LIBRARY_ORDINAL {
                        SourceLib::Self_
                    } else if ord == EXECUTABLE_ORDINAL {
                        SourceLib::MainExecutable
                    } else {
                        SourceLib::Ordinal(ord - 1)
                    },
                )
            } else if n_type == N_INDR {
                SymbolValue::ReExport(strx_to_name(strtab, nl.n_value, warnings))
            } else if n_type == N_ABS {
                SymbolValue::Abs(vma)
            } else {
                SymbolValue::Addr(vma)
            };
            assert(warnings@ =~= w0 + nlist_warnings(nl, strtab@, is_obj));
            let skip = skip_redacted && is_redacted(name.as_slice());
            if !skip {
                let sym = Symbol {
                    name,
                    is_public: public,
                    is_weak: weak,
                    val,
                    size: None,
                    private: off,
                };
                assert(sym@ == symbol_of_nlist(nl, strtab@, is_obj, off));
                proof {
                    lemma_symbol_views_push(out@, sym);
                }
                out.push(sym);
            }
            assert((start + i + 1) * size == (start + i) * size + size) by (nonlinear_arith);
            off += size;
            i += 1;
        }
    }
}

/// The library ordinal that is written for a source.
pub open spec fn ordinal_of_source(source: SourceLib) -> u32 {
    match source {
        SourceLib::NoLib => 0,
        SourceLib::Flat => DYNAMIC_LOOKUP_ORDINAL,
        SourceLib::Self_ => SELF_LIBRARY_ORDINAL,
        SourceLib::MainExecutable => EXECUTABLE_ORDINAL,
        SourceLib::Ordinal(n) => n.wrapping_add(1),
    }
}

/// The type byte of the record that is written for a symbol.
pub open spec fn n_type_of_symbol(sym: SymbolView) -> u8 {
    let weak: u8 = if !sym.is_weak {
        0
    } else if sym.val is Undefined {
        0x40
    } else {
        0x80
    };
    let ext: u8 = if sym.is_public {
        0x01
    } else {
        0
    };
    let kind: u8 = match sym.val {
        SymbolValueView::Abs(_) => 0x02,
        SymbolValueView::ReExport(_) => 0x0a,
        _ => 0,
    };
    weak | ext | kind
}

/// The record that is written for a symbol whose name stands at `strx` of
/// the string table; `ind_strx` is where the name it stands for is, for a
/// re-export. Thread-local symbols and resolvers with a stub have no record.
/// In ARM code an odd address is written as the even one below it, and
/// marked.
pub open spec fn nlist_of_symbol(
    sym: SymbolView,
    strx: u32,
    ind_strx: Option<u32>,
    arch: Arch,
    is_text: bool,
) -> Result<Nlist, MachOError> {
    let n_type = n_type_of_symbol(sym);
    let n_value: u64 = match sym.val {
        SymbolValueView::Addr(a) => a,
        SymbolValueView::Abs(a) => a,
        SymbolValueView::Resolver(a, _) => a,
        SymbolValueView::ReExport(_) => ind_strx->Some_0 as u64,
        _ => 0,
    };
    let n_desc: u16 = match sym.val {
        SymbolValueView::Undefined(source) => (if source == SourceLib::Flat {
            0x80u16
        } else {
            0u16
        }) | (((ordinal_of_source(source) & 0xff) << 8) as u16),
        SymbolValueView::Resolver(_, _) => 0x100,
        _ => 0,
    };
    let thumb = n_value & 1 != 0 && arch == Arch::ARM && is_text;
    match sym.val {
        SymbolValueView::ThreadLocal(_) => Err(MachOError::ThreadLocalSymbol),
        SymbolValueView::Resolver(_, Some(_)) => Err(MachOError::ResolverWithStub),
        _ => Ok(
            Nlist {
                n_strx: strx,
                n_type,
                n_sect: 0,
                n_desc: if thumb {
                    n_desc | 0x8
                } else {
                    n_desc
                },
                n_value: if thumb {
                    (n_value - 1) as u64
                } else {
                    n_value
                },
            },
        ),
    }
}

/// Makes the symbol record for a symbol.
#[verifier::rlimit(50)]
pub fn exec_sym_to_nlist_64(
    sym: &Symbol,
    strx: u32,
    ind_strx: Option<u32>,
    arch: Arch,
    is_text: bool,
) -> (r: Result<Nlist, MachOError>)
    requires
        sym.val is ReExport ==> ind_strx is Some,
    ensures
        r == nlist_of_symbol(sym@, strx, ind_strx, arch, is_text),
{
    let weak: u8 = if !sym.is_weak {
        0
    } else {
        match sym.val {
            SymbolValue::Undefined(_) => 0x40,
            _ => 0x80,
        }
    };
    let ext: u8 = if sym.is_public {
        0x01
    } else {
        0
    };
    let mut n_value: u64 = 0;
    let mut n_desc: u16 = 0;
    let mut kind: u8 = 0;
    match &sym.val {
        SymbolValue::Addr(a) => {
            n_value = *a;
        },
        SymbolValue::Abs(a) => {
            n_value = *a;
            kind = 0x02;
        },
        SymbolValue::ThreadLocal(_) => {
            return Err(MachOError::ThreadLocalSymbol);
        },
        SymbolValue::Undefined(source) => {
            let ord: u32 = match source {
                SourceLib::NoLib => 0,
                SourceLib::Flat => DYNAMIC_LOOKUP_ORDINAL,
                SourceLib::Self_ => SELF_LIBRARY_ORDINAL,
                SourceLib::MainExecutable => EXECUTABLE_ORDINAL,
                SourceLib::Ordinal(n) => n.wrapping_add(1),
            };
            let flat: u16 = match source {
                SourceLib::Flat => 0x80,
                _ => 0,
            };
            let low = ord & 0xff;
            assert((low << 8) <= 0xff00) by (bit_vector)
                requires
                    low == ord & 0xff,
            ;
            n_desc = flat | (((ord & 0xff) << 8) as u16);
        },
        SymbolValue::Resolver(a, None) => {
            n_value = *a;
            n_desc = 0x100;
        },
        SymbolValue::Resolver(_, Some(_)) => {
            return Err(MachOError::ResolverWithStub);
        },
        SymbolValue::ReExport(_) => {
            n_value = ind_strx.unwrap() as u64;
            kind = 0x0a;
        },
    }
    let thumb = n_value & 1 != 0 && arch == Arch::ARM && is_text;
    if thumb {
        assert(n_value >= 1) by (bit_vector)
            requires
                n_value & 1 != 0,
        ;
        n_value = n_value - 1;
        n_desc = n_desc | 0x8;
    }
    Ok(Nlist { n_strx: strx, n_type: weak | ext | kind, n_sect: 0, n_desc, n_value })
}

} // verus!
