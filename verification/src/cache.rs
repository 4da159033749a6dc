//! The symbols of an image taken out of a shared cache: its own symbol
//! table, the records that the cache keeps for it, and its exports are made
//! into three new symbol tables with one string table.

use vstd::prelude::*;
use crate::defs::{NLIST_64_SIZE, NLIST_SIZE, N_EXT, N_INDR, N_TYPE, N_UNDF};
use crate::diag::Warning;
use crate::exec::{
    Arch, Symbol, SymbolSource, SymbolValue, SymbolValueView, SymbolView, symbol_views,
};
use crate::image::{
    EXTDEFSYM, LOCALSYM, MachO, MachOError, MachOView, STRTAB, SYMTAB, UNDEFSYM, bytes_views,
    nlist_size_of,
};
use crate::layout::symtab_merged;
use crate::rewrite::reallocated;
use crate::symbols::symbol_list;
use crate::symtab::{
    Nlist, copy_nlist_from_slice, copy_nlist_to_vec, exec_sym_to_nlist_64, nlist_of_symbol,
    strx_in_range, strx_name, strx_to_name,
};
use crate::util::{Endian, append_bytes, bytes_eq, copy_range};

verus! {

/// The three symbol tables and the string table made for an image.
#[derive(Clone, Debug)]
pub struct ReaggregatedSyms {
    pub localsym: Vec<u8>,
    pub extdefsym: Vec<u8>,
    pub undefsym: Vec<u8>,
    pub strtab: Vec<u8>,
}

/// A string table in the making: its bytes, and where each string that was
/// added stands.
pub struct StrPool {
    pub strtab: Seq<u8>,
    pub known: Seq<(Seq<u8>, u32)>,
    pub warnings: Seq<Warning>,
}

/// Where the string `s` stands, going by the entries from the `i`-th on.
pub open spec fn known_from(known: Seq<(Seq<u8>, u32)>, s: Seq<u8>, i: int) -> Option<u32>
    decreases known.len() - i,
{
    if i < 0 || i >= known.len() {
        None
    } else if known[i].0 == s {
        Some(known[i].1)
    } else {
        known_from(known, s, i + 1)
    }
}

/// The table with the string `s` in it, and where `s` stands. A string that
/// is there already is not added again. One that would carry the table past
/// 32 bits is not added: it is given place 0, with a warning.
pub open spec fn string_added(p: StrPool, s: Seq<u8>) -> (StrPool, u32) {
    match known_from(p.known, s, 0) {
        Some(pos) => (p, pos),
        None => if p.strtab.len() >= u32::MAX - s.len() {
            (
                StrPool {
                    known: p.known.push((s, 0)),
                    warnings: p.warnings.push(Warning::StringTableTooBig),
                    ..p
                },
                0,
            )
        } else {
            (
                StrPool {
                    strtab: p.strtab + s + seq![0u8],
                    known: p.known.push((s, p.strtab.len() as u32)),
                    ..p
                },
                p.strtab.len() as u32,
            )
        },
    }
}

/// The tables in the making.
pub struct Regroup {
    pub localsym: Seq<u8>,
    pub extdefsym: Seq<u8>,
    pub undefsym: Seq<u8>,
    pub pool: StrPool,
}

/// The warnings with that of a string offset outside its table.
pub open spec fn strx_warned(w: Seq<Warning>, strtab: Seq<u8>, strx: u64) -> Seq<Warning> {
    if strx_in_range(strtab, strx) {
        w
    } else {
        w.push(Warning::SymbolNameOutOfRange)
    }
}

/// The tables with the record `nl` added, whose strings are in `src`: the
/// name, and for an indirect symbol the name it stands for, go to the new
/// string table, and the record goes to the table of undefined symbols, of
/// external ones, or of local ones.
pub open spec fn record_regrouped(
    st: Regroup,
    nl: Nlist,
    src: Seq<u8>,
    end: Endian,
    is64: bool,
) -> Regroup {
    let n_type = nl.n_type as u32 & N_TYPE;
    let a = string_added(
        StrPool { warnings: strx_warned(st.pool.warnings, src, nl.n_strx as u64), ..st.pool },
        strx_name(src, nl.n_strx as u64),
    );
    let b = if n_type == N_INDR {
        string_added(
            StrPool { warnings: strx_warned(a.0.warnings, src, nl.n_value), ..a.0 },
            strx_name(src, nl.n_value),
        )
    } else {
        a
    };
    let nl2 = Nlist {
        n_strx: a.1,
        n_value: if n_type == N_INDR {
            b.1 as u64
        } else {
            nl.n_value
        },
        ..nl
    };
    let bytes = nl2.encoded(end, is64);
    if n_type == N_UNDF {
        Regroup { undefsym: st.undefsym + bytes, pool: b.0, ..st }
    } else if nl.n_type as u32 & N_EXT != 0 {
        Regroup { extdefsym: st.extdefsym + bytes, pool: b.0, ..st }
    } else {
        Regroup { localsym: st.localsym + bytes, pool: b.0, ..st }
    }
}

/// The tables with `count - i` records of `symtab` added, of which the
/// first is record `start + i`. Reading stops with a warning where the table
/// ends before a record does.
pub open spec fn records_regrouped_from(
    symtab: Seq<u8>,
    src: Seq<u8>,
    end: Endian,
    is64: bool,
    start: usize,
    count: usize,
    i: int,
    st: Regroup,
) -> Regroup
    decreases count - i,
{
    let size = nlist_size_of(is64) as int;
    let off = (start + i) * size;
    if i < 0 || i >= count {
        st
    } else if off + size > symtab.len() {
        Regroup {
            pool: StrPool {
                warnings: st.pool.warnings.push(Warning::SymbolTableTruncated),
                ..st.pool
            },
            ..st
        }
    } else {
        records_regrouped_from(
            symtab,
            src,
            end,
            is64,
            start,
            count,
            i + 1,
            record_regrouped(
                st,
                Nlist::decoded(symtab.subrange(off, off + size), end, is64),
                src,
                end,
                is64,
            ),
        )
    }
}

/// The tables with the records of the exported symbols from the `i`-th on
/// added, or the reason why one of them has no record.
pub open spec fn exported_regrouped_from(
    syms: Seq<SymbolView>,
    arch: Arch,
    end: Endian,
    is64: bool,
    i: int,
    st: Regroup,
) -> (Regroup, Result<(), MachOError>)
    decreases syms.len() - i,
{
    if i < 0 || i >= syms.len() {
        (st, Ok(()))
    } else {
        let sym = syms[i];
        let a = string_added(st.pool, sym.name);
        let b = match sym.val {
            SymbolValueView::ReExport(imp) => string_added(a.0, imp),
            _ => a,
        };
        let ind = if sym.val is ReExport {
            Some(b.1)
        } else {
            None
        };
        let st1 = Regroup { pool: b.0, ..st };
        match nlist_of_symbol(sym, a.1, ind, arch, false) {
            Err(e) => (st1, Err(e)),
            Ok(nl) => if !nl.fits(is64) {
                (st1, Err(MachOError::AddressOverflow))
            } else {
                let bytes = nl.encoded(end, is64);
                exported_regrouped_from(
                    syms,
                    arch,
                    end,
                    is64,
                    i + 1,
                    if sym.val is Undefined {
                        Regroup { undefsym: st1.undefsym + bytes, ..st1 }
                    } else if sym.is_public {
                        Regroup { extdefsym: st1.extdefsym + bytes, ..st1 }
                    } else {
                        Regroup { localsym: st1.localsym + bytes, ..st1 }
                    },
                )
            },
        }
    }
}

/// The new tables of an image: the records of its own symbol table, then
/// those that the shared cache keeps for it, then one for every exported
/// symbol. The string table starts with a NUL, which is the empty name.
pub open spec fn reaggregated(m: MachOView, warnings: Seq<Warning>) -> (
    Regroup,
    Result<(), MachOError>,
) {
    let st0 = Regroup {
        localsym: Seq::empty(),
        extdefsym: Seq::empty(),
        undefsym: Seq::empty(),
        pool: StrPool { strtab: seq![0u8], known: Seq::empty(), warnings },
    };
    let symtab = m.linkedit[SYMTAB as int];
    let st1 = records_regrouped_from(
        symtab,
        m.linkedit[STRTAB as int],
        m.endian,
        m.is64,
        0,
        (symtab.len() / nlist_size_of(m.is64) as nat) as usize,
        0,
        st0,
    );
    let st2 = match m.dsc_tabs {
        Some(t) => records_regrouped_from(
            t.symtab,
            t.strtab,
            m.endian,
            m.is64,
            t.start as usize,
            t.count as usize,
            0,
            st1,
        ),
        None => st1,
    };
    let exported = symbol_list(m, SymbolSource::Exported, st2.pool.warnings);
    exported_regrouped_from(
        exported.0,
        m.arch,
        m.endian,
        m.is64,
        0,
        Regroup { pool: StrPool { warnings: exported.1, ..st2.pool }, ..st2 },
    )
}

/// The views of the places of the strings.
pub open spec fn known_views(v: Seq<(Vec<u8>, u32)>) -> Seq<(Seq<u8>, u32)> {
    v.map_values(|e: (Vec<u8>, u32)| (e.0@, e.1))
}

/// The tables in the making, as the program holds them.
struct Tables {
    localsym: Vec<u8>,
    extdefsym: Vec<u8>,
    undefsym: Vec<u8>,
    strtab: Vec<u8>,
    known: Vec<(Vec<u8>, u32)>,
}

impl Tables {
    spec fn pool(&self, warnings: Seq<Warning>) -> StrPool {
        StrPool { strtab: self.strtab@, known: known_views(self.known@), warnings }
    }

    spec fn regroup(&self, warnings: Seq<Warning>) -> Regroup {
        Regroup {
            localsym: self.localsym@,
            extdefsym: self.extdefsym@,
            undefsym: self.undefsym@,
            pool: self.pool(warnings),
        }
    }

    /// Adds a string to the string table, unless it is there, and says
    /// where it stands.
    #[verifier::rlimit(50)]
    fn add_string(&mut self, s: &[u8], warnings: &mut Vec<Warning>) -> (r: u32)
        ensures
            final(self).pool(final(warnings)@) == string_added(
                old(self).pool(old(warnings)@),
                s@,
            ).0,
            r == string_added(old(self).pool(old(warnings)@), s@).1,
            final(self).localsym == old(self).localsym,
            final(self).extdefsym == old(self).extdefsym,
            final(self).undefsym == old(self).undefsym,
    {
        let ghost known = known_views(self.known@);
        let mut i: usize = 0;
        while i < self.known.len()
            invariant
                i <= self.known@.len(),
                *self == *old(self),
                known == known_views(self.known@),
                known_from(known, s@, i as int) == known_from(known, s@, 0),
            decreases self.known@.len() - i,
        {
            assert(known[i as int] == (self.known@[i as int].0@, self.known@[i as int].1));
            if bytes_eq(self.known[i].0.as_slice(), s) {
                return self.known[i].1;
            }
            i += 1;
        }
        assert(s@.len() == s.len());
        let pos = self.strtab.len();
        let copy = copy_range(s, 0, s.len());
        assert(copy@ =~= s@);
        if pos as u64 >= 0xffff_ffff || s.len() as u64 >= 0xffff_ffff - pos as u64 {
            warnings.push(Warning::StringTableTooBig);
            assert(known_views(self.known@.push((copy, 0u32))) =~= known.push((s@, 0u32)));
            self.known.push((copy, 0));
            return 0;
        }
        append_bytes(&mut self.strtab, s);
        self.strtab.push(0);
        assert(self.strtab@ =~= old(self).strtab@ + s@ + seq![0u8]);
        assert(known_views(self.known@.push((copy, pos as u32))) =~= known.push(
            (s@, pos as u32),
        ));
        self.known.push((copy, pos as u32));
        pos as u32
    }

    /// Adds one record of a symbol table.
    #[verifier::rlimit(50)]
    fn add_record(&mut self, nl: Nlist, src: &[u8], end: Endian, is64: bool, warnings: &mut Vec<Warning>)
        requires
            nl.fits(is64),
        ensures
            final(self).regroup(final(warnings)@) == record_regrouped(
                old(self).regroup(old(warnings)@),
                nl,
                src@,
                end,
                is64,
            ),
    {
        let n_type = nl.n_type as u32 & N_TYPE;
        let ghost st = self.regroup(warnings@);
        let name = strx_to_name(src, nl.n_strx as u64, warnings);
        assert(warnings@ =~= strx_warned(st.pool.warnings, src@, nl.n_strx as u64));
        let strx = self.add_string(name.as_slice(), warnings);
        let ghost a = string_added(
            StrPool { warnings: strx_warned(st.pool.warnings, src@, nl.n_strx as u64), ..st.pool },
            strx_name(src@, nl.n_strx as u64),
        );
        assert(self.pool(warnings@) == a.0);
        let mut n_value = nl.n_value;
        if n_type == N_INDR {
            let ghost w1 = warnings@;
            let imp_name = strx_to_name(src, nl.n_value, warnings);
            assert(warnings@ =~= strx_warned(w1, src@, nl.n_value));
            n_value = self.add_string(imp_name.as_slice(), warnings) as u64;
        }
        let nl2 = Nlist {
            n_strx: strx,
            n_type: nl.n_type,
            n_sect: nl.n_sect,
            n_desc: nl.n_desc,
            n_value,
        };
        if n_type == N_UNDF {
            let _ = copy_nlist_to_vec(&mut self.undefsym, &nl2, end, is64);
        } else if nl.n_type as u32 & N_EXT != 0 {
            let _ = copy_nlist_to_vec(&mut self.extdefsym, &nl2, end, is64);
        } else {
            let _ = copy_nlist_to_vec(&mut self.localsym, &nl2, end, is64);
        }
    }

    /// Adds `count` records of `symtab`, from record `start` on.
    #[verifier::rlimit(50)]
    fn add_records(
        &mut self,
        symtab: &[u8],
        src: &[u8],
        end: Endian,
        is64: bool,
        start: usize,
        count: usize,
        warnings: &mut Vec<Warning>,
    )
        ensures
            final(self).regroup(final(warnings)@) == records_regrouped_from(
                symtab@,
                src@,
                end,
                is64,
                start,
                count,
                0,
                old(self).regroup(old(warnings)@),
            ),
    {
        let size: usize = if is64 {
            NLIST_64_SIZE
        } else {
            NLIST_SIZE
        };
        assert(symtab@.len() == symtab.len());
        let ghost target = records_regrouped_from(
            symtab@,
            src@,
            end,
            is64,
            start,
            count,
            0,
            self.regroup(warnings@),
        );
        if count == 0 {
            return ;
        }
        proof {
            let q = symtab@.len() as int / size as int;
            vstd::arithmetic::div_mod::lemma_fundamental_div_mod(symtab@.len() as int, size as int);
            vstd::arithmetic::mul::lemma_mul_is_commutative(size as int, q);
            vstd::arithmetic::mul::lemma_mul_is_distributive_add_other_way(size as int, q, 1);
            if start > q {
                vstd::arithmetic::mul::lemma_mul_inequality(q + 1, start as int, size as int);
            } else {
                vstd::arithmetic::mul::lemma_mul_inequality(start as int, q, size as int);
            }
        }
        if start > symtab.len() / size {
            warnings.push(Warning::SymbolTableTruncated);
            return ;
        }
        let mut off: usize = start * size;
        let mut i: usize = 0;
        while i < count
            invariant_except_break
                i <= count,
                off == (start + i) * size,
                off <= symtab@.len(),
                records_regrouped_from(
                    symtab@,
                    src@,
                    end,
                    is64,
                    start,
                    count,
                    i as int,
                    self.regroup(warnings@),
                ) == target,
            invariant
                symtab@.len() == symtab.len(),
                size == nlist_size_of(is64),
            ensures
                self.regroup(warnings@) == target,
            decreases count - i,
        {
            if symtab.len() - off < size {
                warnings.push(Warning::SymbolTableTruncated);
                break ;
            }
            let record = vstd::slice::slice_subrange(symtab, off, off + size);
            let nl = copy_nlist_from_slice(record, end);
            proof {
                Nlist::lemma_bytes_round_trip(record@, end, is64);
            }
            self.add_record(nl, src, end, is64, warnings);
            proof {
                vstd::arithmetic::mul::lemma_mul_is_distributive_add_other_way(
                    size as int,
                    start + i,
                    1,
                );
            }
            off += size;
            i += 1;
        }
    }

    /// Adds the record of one exported symbol.
    #[verifier::rlimit(50)]
    fn add_exported(
        &mut self,
        sym: &Symbol,
        arch: Arch,
        end: Endian,
        is64: bool,
        warnings: &mut Vec<Warning>,
    ) -> (r: Result<(), MachOError>)
        ensures
            ({
                let st = old(self).regroup(old(warnings)@);
                let a = string_added(st.pool, sym@.name);
                let b = match sym@.val {
                    SymbolValueView::ReExport(imp) => string_added(a.0, imp),
                    _ => a,
                };
                let ind = if sym@.val is ReExport {
                    Some(b.1)
                } else {
                    None
                };
                let st1 = Regroup { pool: b.0, ..st };
                match nlist_of_symbol(sym@, a.1, ind, arch, false) {
                    Err(e) => final(self).regroup(final(warnings)@) == st1 && r == Err::<
                        (),
                        MachOError,
                    >(e),
                    Ok(nl) => if !nl.fits(is64) {
                        final(self).regroup(final(warnings)@) == st1 && r == Err::<
                            (),
                            MachOError,
                        >(MachOError::AddressOverflow)
                    } else {
                        r is Ok && final(self).regroup(final(warnings)@) == (if sym@.val
                            is Undefined {
                            Regroup { undefsym: st1.undefsym + nl.encoded(end, is64), ..st1 }
                        } else if sym.is_public {
                            Regroup { extdefsym: st1.extdefsym + nl.encoded(end, is64), ..st1 }
                        } else {
                            Regroup { localsym: st1.localsym + nl.encoded(end, is64), ..st1 }
                        })
                    },
                }
            }),
    {
        let strx = self.add_string(sym.name.as_slice(), warnings);
        let ind = match &sym.val {
            SymbolValue::ReExport(imp) => Some(self.add_string(imp.as_slice(), warnings)),
            _ => None,
        };
        let nl = match exec_sym_to_nlist_64(sym, strx, ind, arch, false) {
            Ok(nl) => nl,
            Err(e) => {
                return Err(e);
            },
        };
        match &sym.val {
            SymbolValue::Undefined(_) => copy_nlist_to_vec(&mut self.undefsym, &nl, end, is64),
            _ => if sym.is_public {
                copy_nlist_to_vec(&mut self.extdefsym, &nl, end, is64)
            } else {
                copy_nlist_to_vec(&mut self.localsym, &nl, end, is64)
            },
        }
    }
}

impl MachO {
    /// Makes new symbol tables and a new string table from the image's own
    /// symbol table, the records that a shared cache keeps for it, and its
    /// exports.
    #[verifier::rlimit(50)]
    pub fn reaggregate_nlist_syms_from_cache(&self, warnings: &mut Vec<Warning>) -> (r: Result<
        ReaggregatedSyms,
        MachOError,
    >)
        requires
            self.wf(),
        ensures
            final(warnings)@ == reaggregated(self@, old(warnings)@).0.pool.warnings,
            match reaggregated(self@, old(warnings)@).1 {
                Ok(_) => {
                    let st = reaggregated(self@, old(warnings)@).0;
                    &&& r is Ok
                    &&& r->Ok_0.localsym@ == st.localsym
                    &&& r->Ok_0.extdefsym@ == st.extdefsym
                    &&& r->Ok_0.undefsym@ == st.undefsym
                    &&& r->Ok_0.strtab@ == st.pool.strtab
                },
                Err(e) => r is Err && r->Err_0 == e,
            },
    {
        let end = self.eb.endian;
        let is64 = self.is64;
        let arch = self.eb.arch;
        let mut t = Tables {
            localsym: Vec::new(),
            extdefsym: Vec::new(),
            undefsym: Vec::new(),
            strtab: Vec::new(),
            known: Vec::new(),
        };
        t.strtab.push(0);
        proof {
            assert(t.strtab@ =~= seq![0u8]);
            assert(known_views(t.known@) =~= Seq::empty());
        }
        let symtab = self.region(SYMTAB);
        assert(symtab@.len() == symtab.len());
        t.add_records(
            symtab,
            self.region(STRTAB),
            end,
            is64,
            0,
            symtab.len() / self.nlist_size(),
            warnings,
        );
        if let Some(d) = &self.dsc_tabs {
            t.add_records(
                d.symtab.as_slice(),
                d.strtab.as_slice(),
                end,
                is64,
                d.start as usize,
                d.count as usize,
                warnings,
            );
        }
        let exported = self.get_symbol_list(SymbolSource::Exported, warnings);
        let ghost syms = symbol_views(exported@);
        let ghost target = exported_regrouped_from(
            syms,
            arch,
            end,
            is64,
            0,
            t.regroup(warnings@),
        );
        let mut i: usize = 0;
        while i < exported.len()
            invariant
                i <= exported@.len(),
                syms == symbol_views(exported@),
                exported_regrouped_from(syms, arch, end, is64, i as int, t.regroup(warnings@))
                    == target,
                target == reaggregated(self@, old(warnings)@),
            decreases exported@.len() - i,
        {
            assert(syms[i as int] == exported@[i as int]@);
            let ghost before = t.regroup(warnings@);
            match t.add_exported(&exported[i], arch, end, is64, warnings) {
                Ok(_) => {},
                Err(e) => {
                    assert(exported_regrouped_from(syms, arch, end, is64, i as int, before) == (
                        t.regroup(warnings@),
                        Err::<(), MachOError>(e),
                    ));
                    return Err(e);
                },
            }
            i += 1;
        }
        Ok(
            ReaggregatedSyms {
                localsym: t.localsym,
                extdefsym: t.extdefsym,
                undefsym: t.undefsym,
                strtab: t.strtab,
            },
        )
    }
}

/// What taking an image out of its container makes of it.
pub struct Extracted {
    pub image: MachOView,
    pub warnings: Seq<Warning>,
    pub result: Result<(), MachOError>,
}

/// The image with the new tables in the place of its symbols.
pub open spec fn with_tables(m: MachOView, st: Regroup) -> MachOView {
    MachOView {
        linkedit: symtab_merged(
            m.linkedit.update(LOCALSYM as int, st.localsym).update(
                EXTDEFSYM as int,
                st.extdefsym,
            ).update(UNDEFSYM as int, st.undefsym).update(STRTAB as int, st.pool.strtab),
        ),
        ..m
    }
}

/// The image made fit to stand alone. One that lies in a larger container
/// first gets its symbols gathered into tables of its own. Then the image is
/// rewritten, and the whole file is put together from its segments. Where
/// a step fails, the image is left as that step left it.
pub open spec fn extracted(m: MachOView, warnings: Seq<Warning>) -> Extracted {
    let gathered = reaggregated(m, warnings);
    if m.hdr_offset != 0 && gathered.1 is Err {
        Extracted { image: m, warnings: gathered.0.pool.warnings, result: gathered.1 }
    } else {
        let m1 = if m.hdr_offset != 0 {
            with_tables(m, gathered.0)
        } else {
            m
        };
        let w1 = if m.hdr_offset != 0 {
            gathered.0.pool.warnings
        } else {
            warnings
        };
        let r = reallocated(m1, w1);
        if r.result is Err {
            Extracted { image: r.image, warnings: r.warnings, result: r.result }
        } else if !crate::rewrite::segments_whole(r.image.segments) {
            Extracted {
                image: r.image,
                warnings: r.warnings,
                result: Err(MachOError::Truncated),
            }
        } else {
            Extracted {
                image: MachOView {
                    whole_buf: Some(crate::rewrite::whole_file(r.image.segments)),
                    ..r.image
                },
                warnings: r.warnings,
                result: Ok(()),
            }
        }
    }
}

proof fn lemma_views_update(s: Seq<Vec<u8>>, i: int, x: Vec<u8>)
    requires
        0 <= i < s.len(),
    ensures
        bytes_views(s.update(i, x)) == bytes_views(s).update(i, x@),
{
    assert(bytes_views(s.update(i, x)) =~= bytes_views(s).update(i, x@));
}

impl MachO {
    /// Makes the image fit to stand alone.
    #[verifier::rlimit(50)]
    pub fn extract_as_necessary(&mut self, warnings: &mut Vec<Warning>) -> (r: Result<
        (),
        MachOError,
    >)
        requires
            old(self).wf(),
        ensures
            final(self).wf(),
            final(self)@ == extracted(old(self)@, old(warnings)@).image,
            final(warnings)@ == extracted(old(self)@, old(warnings)@).warnings,
            r == extracted(old(self)@, old(warnings)@).result,
    {
        if self.hdr_offset != 0 {
            let res = match self.reaggregate_nlist_syms_from_cache(warnings) {
                Ok(res) => res,
                Err(e) => {
                    return Err(e);
                },
            };
            proof {
                lemma_views_update(self.linkedit@, LOCALSYM as int, res.localsym);
            }
            self.linkedit.set(LOCALSYM, res.localsym);
            proof {
                lemma_views_update(self.linkedit@, EXTDEFSYM as int, res.extdefsym);
            }
            self.linkedit.set(EXTDEFSYM, res.extdefsym);
            proof {
                lemma_views_update(self.linkedit@, UNDEFSYM as int, res.undefsym);
            }
            self.linkedit.set(UNDEFSYM, res.undefsym);
            proof {
                lemma_views_update(self.linkedit@, STRTAB as int, res.strtab);
            }
            self.linkedit.set(STRTAB, res.strtab);
            self.xsym_to_symtab();
            self.fix_objc_from_cache();
            self.unbind();
        }
        match self.reallocate(warnings) {
            Ok(_) => {},
            Err(e) => {
                return Err(e);
            },
        }
        self.rewhole()
    }
}

} // verus!
