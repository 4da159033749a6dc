use macho::cache::ReaggregatedSyms;
use macho::diag::Warning;
use macho::exec::{Arch, ExecBase, SourceLib, Symbol, SymbolSource, SymbolValue};
use macho::image::{
    DscTabs, MachHeader, MachO, MachOError, DYLD_EXPORT, NUM_LINKEDIT, STRTAB, SYMTAB,
};
use macho::symtab::{
    copy_nlist_from_slice, copy_nlist_to_vec, exec_sym_to_nlist_64, strx_to_name, Nlist,
};
use macho::util::Endian;

fn blank(is64: bool, end: Endian, filetype: u32) -> MachO {
    MachO {
        eb: ExecBase {
            arch: Arch::X86_64,
            endian: end,
            segments: Vec::new(),
            sections: Vec::new(),
            whole_buf: None,
        },
        is64,
        mh: MachHeader {
            magic: if is64 { 0xfeedfacf } else { 0xfeedface },
            cputype: 0x01000007,
            cpusubtype: 3,
            filetype,
            ncmds: 0,
            sizeofcmds: 0,
            flags: 0,
        },
        hdr_offset: 0,
        load_commands: Vec::new(),
        load_dylib: Vec::new(),
        dyld_base: None,
        linkedit: vec![Vec::new(); NUM_LINKEDIT],
        dsc_tabs: None,
    }
}

fn nl64(strx: u32, n_type: u8, n_sect: u8, n_desc: u16, value: u64, end: Endian) -> Vec<u8> {
    let mut v = Vec::new();
    match end {
        Endian::LittleEndian => {
            v.extend_from_slice(&strx.to_le_bytes());
            v.push(n_type);
            v.push(n_sect);
            v.extend_from_slice(&n_desc.to_le_bytes());
            v.extend_from_slice(&value.to_le_bytes());
        }
        Endian::BigEndian => {
            v.extend_from_slice(&strx.to_be_bytes());
            v.push(n_type);
            v.push(n_sect);
            v.extend_from_slice(&n_desc.to_be_bytes());
            v.extend_from_slice(&value.to_be_bytes());
        }
    }
    v
}

fn nl32(strx: u32, n_type: u8, n_sect: u8, n_desc: u16, value: u32, end: Endian) -> Vec<u8> {
    let mut v = Vec::new();
    match end {
        Endian::LittleEndian => {
            v.extend_from_slice(&strx.to_le_bytes());
            v.push(n_type);
            v.push(n_sect);
            v.extend_from_slice(&n_desc.to_le_bytes());
            v.extend_from_slice(&value.to_le_bytes());
        }
        Endian::BigEndian => {
            v.extend_from_slice(&strx.to_be_bytes());
            v.push(n_type);
            v.push(n_sect);
            v.extend_from_slice(&n_desc.to_be_bytes());
            v.extend_from_slice(&value.to_be_bytes());
        }
    }
    v
}

#[test]
fn nlist_round_trips_at_both_widths_and_orders() {
    for end in [Endian::LittleEndian, Endian::BigEndian] {
        let wide = nl64(0x01020304, 0x0f, 3, 0xa1b2, 0x1122334455667788, end);
        let nl = copy_nlist_from_slice(&wide, end);
        assert_eq!(
            nl,
            Nlist { n_strx: 0x01020304, n_type: 0x0f, n_sect: 3, n_desc: 0xa1b2, n_value: 0x1122334455667788 }
        );
        let mut out = Vec::new();
        assert_eq!(copy_nlist_to_vec(&mut out, &nl, end, true), Ok(()));
        assert_eq!(out, wide);

        let narrow = nl32(0x01020304, 0x0f, 3, 0xa1b2, 0x99aabbcc, end);
        let nl = copy_nlist_from_slice(&narrow, end);
        assert_eq!(
            nl,
            Nlist { n_strx: 0x01020304, n_type: 0x0f, n_sect: 3, n_desc: 0xa1b2, n_value: 0x99aabbcc }
        );
        let mut out = vec![0xeeu8];
        assert_eq!(copy_nlist_to_vec(&mut out, &nl, end, false), Ok(()));
        assert_eq!(&out[1..], &narrow[..]);
        assert_eq!(out[0], 0xee);
    }
    assert_eq!(Nlist::default(), Nlist { n_strx: 0, n_type: 0, n_sect: 0, n_desc: 0, n_value: 0 });
}

#[test]
fn narrowing_fails_exactly_above_32_bits() {
    let end = Endian::LittleEndian;
    let mut nl = Nlist { n_strx: 1, n_type: 0x0e, n_sect: 1, n_desc: 0, n_value: 0xffff_ffff };
    let mut out = Vec::new();
    assert_eq!(copy_nlist_to_vec(&mut out, &nl, end, false), Ok(()));
    assert_eq!(out.len(), 12);
    assert_eq!(out, nl32(1, 0x0e, 1, 0, 0xffff_ffff, end));
    nl.n_value = 0x1_0000_0000;
    let mut out = vec![1u8, 2, 3];
    assert_eq!(copy_nlist_to_vec(&mut out, &nl, end, false), Err(MachOError::AddressOverflow));
    assert_eq!(out, vec![1u8, 2, 3]);
    assert_eq!(copy_nlist_to_vec(&mut out, &nl, end, true), Ok(()));
    assert_eq!(out.len(), 3 + 16);
    // A whole table: it narrows exactly when no address passes 32 bits.
    let table = [nl64(1, 0x0e, 1, 0, 0x1000, end), nl64(5, 0x0e, 1, 0, 0xffff_ffff, end)].concat();
    let mut narrowed = Vec::new();
    let mut ok = true;
    for rec in table.chunks(16) {
        ok = ok && copy_nlist_to_vec(&mut narrowed, &copy_nlist_from_slice(rec, end), end, false).is_ok();
    }
    assert!(ok);
    assert_eq!(narrowed, [nl32(1, 0x0e, 1, 0, 0x1000, end), nl32(5, 0x0e, 1, 0, 0xffff_ffff, end)].concat());
    let table = [nl64(1, 0x0e, 1, 0, 0x1000, end), nl64(5, 0x0e, 1, 0, 0x1_0000_0000, end)].concat();
    let results: Vec<bool> = table
        .chunks(16)
        .map(|rec| copy_nlist_to_vec(&mut Vec::new(), &copy_nlist_from_slice(rec, end), end, false).is_ok())
        .collect();
    assert_eq!(results, vec![true, false]);
}

#[test]
fn local_and_undefined_symbol_are_listed() {
    for end in [Endian::LittleEndian, Endian::BigEndian] {
        let mut m = blank(true, end, 2);
        m.linkedit[STRTAB] = b"\0_foo\0_bar\0".to_vec();
        // "_foo": a local symbol in a section; "_bar": undefined, from the
        // library with ordinal 2, which the descriptor holds as 3.
        m.linkedit[SYMTAB] = [nl64(1, 0x0e, 1, 0, 0x1000, end), nl64(6, 0x00, 0, 0x0300, 0, end)].concat();
        let mut w = Vec::new();
        let syms = m.get_symbol_list(SymbolSource::All, &mut w);
        assert!(w.is_empty());
        assert_eq!(syms.len(), 2);
        assert_eq!(syms[0].name, b"_foo".to_vec());
        assert!(!syms[0].is_public);
        assert!(!syms[0].is_weak);
        assert!(matches!(syms[0].val, SymbolValue::Addr(0x1000)));
        assert_eq!(syms[0].size, None);
        assert_eq!(syms[0].private, 0);
        assert_eq!(syms[1].name, b"_bar".to_vec());
        assert!(!syms[1].is_public);
        assert!(!syms[1].is_weak);
        assert!(matches!(syms[1].val, SymbolValue::Undefined(SourceLib::Ordinal(2))));
        assert_eq!(syms[1].private, 16);
    }
}

fn one_symbol(m: &MachO, rec: Vec<u8>, strtab: &[u8]) -> (Symbol, Vec<Warning>) {
    let mut out = Vec::new();
    let mut w = Vec::new();
    m.push_nlist_symbols(&rec, strtab, 0, 1, false, &mut out, &mut w);
    assert_eq!(out.len(), 1);
    (out.remove(0), w)
}

#[test]
fn symbol_records_are_classified() {
    let end = Endian::LittleEndian;
    let exe = blank(true, end, 2);
    let obj = blank(true, end, 1);
    let strtab = b"\0_a\0_target\0";
    // External, weak definition, absolute.
    let (s, w) = one_symbol(&exe, nl64(1, 0x03, 0, 0x0080, 0x44, end), strtab);
    assert!(w.is_empty());
    assert_eq!(s.name, b"_a".to_vec());
    assert!(s.is_public);
    assert!(s.is_weak);
    assert!(matches!(s.val, SymbolValue::Abs(0x44)));
    // The Thumb mark sets the low bit of the address.
    let (s, _) = one_symbol(&exe, nl64(1, 0x0e, 1, 0x0008, 0x2000, end), strtab);
    assert!(matches!(s.val, SymbolValue::Addr(0x2001)));
    // Indirect: the value is a string offset.
    let (s, w) = one_symbol(&exe, nl64(1, 0x0a, 0, 0, 4, end), strtab);
    assert!(w.is_empty());
    assert!(matches!(&s.val, SymbolValue::ReExport(n) if n == b"_target"));
    let (s, w) = one_symbol(&exe, nl64(1, 0x0a, 0, 0, 400, end), strtab);
    assert_eq!(w, vec![Warning::SymbolNameOutOfRange]);
    assert!(matches!(&s.val, SymbolValue::ReExport(n) if n == b"<?>"));
    // Undefined symbols and where they come from.
    let (s, _) = one_symbol(&exe, nl64(1, 0x01, 0, 0xfe00, 0, end), strtab);
    assert!(matches!(s.val, SymbolValue::Undefined(SourceLib::Flat)));
    let (s, _) = one_symbol(&exe, nl64(1, 0x01, 0, 0x0180, 0, end), strtab);
    assert!(matches!(s.val, SymbolValue::Undefined(SourceLib::Flat)));
    assert!(s.is_weak);
    let (s, _) = one_symbol(&exe, nl64(1, 0x01, 0, 0x0000, 0, end), strtab);
    assert!(matches!(s.val, SymbolValue::Undefined(SourceLib::Self_)));
    let (s, _) = one_symbol(&exe, nl64(1, 0x01, 0, 0xff00, 0, end), strtab);
    assert!(matches!(s.val, SymbolValue::Undefined(SourceLib::MainExecutable)));
    let (s, _) = one_symbol(&exe, nl64(1, 0x01, 0, 0x0100, 0, end), strtab);
    assert!(matches!(s.val, SymbolValue::Undefined(SourceLib::Ordinal(0))));
    let (s, _) = one_symbol(&exe, nl64(1, 0x01, 0, 0x0140, 0, end), strtab);
    assert!(matches!(s.val, SymbolValue::Undefined(SourceLib::Ordinal(0))));
    assert!(s.is_weak);
    // In an object file no library is named, and resolvers are marked.
    let (s, _) = one_symbol(&obj, nl64(1, 0x01, 0, 0x0200, 0, end), strtab);
    assert!(matches!(s.val, SymbolValue::Undefined(SourceLib::NoLib)));
    let (s, _) = one_symbol(&obj, nl64(1, 0x0f, 1, 0x0100, 0x3000, end), strtab);
    assert!(matches!(s.val, SymbolValue::Resolver(0x3000, None)));
    let (s, _) = one_symbol(&exe, nl64(1, 0x0f, 1, 0x0100, 0x3000, end), strtab);
    assert!(matches!(s.val, SymbolValue::Addr(0x3000)));
    // Names: offset 0 is the empty name, one past the table is unknown.
    let (s, w) = one_symbol(&exe, nl64(0, 0x0e, 1, 0, 0, end), strtab);
    assert_eq!(s.name, Vec::<u8>::new());
    assert!(w.is_empty());
    let (s, w) = one_symbol(&exe, nl64(12, 0x0e, 1, 0, 0, end), strtab);
    assert_eq!(s.name, b"<?>".to_vec());
    assert_eq!(w, vec![Warning::SymbolNameOutOfRange]);
    let (s, w) = one_symbol(&exe, nl64(11, 0x0e, 1, 0, 0, end), strtab);
    assert_eq!(s.name, Vec::<u8>::new());
    assert!(w.is_empty());
}

#[test]
fn symbol_table_that_ends_early_warns() {
    let end = Endian::BigEndian;
    let m = blank(false, end, 2);
    let table = [nl32(1, 0x0e, 1, 0, 0x10, end), nl32(1, 0x0f, 1, 0, 0x20, end), vec![0u8; 5]].concat();
    let mut out = Vec::new();
    let mut w = Vec::new();
    m.push_nlist_symbols(&table, b"\0x\0", 1, 3, false, &mut out, &mut w);
    assert_eq!(out.len(), 1);
    assert!(matches!(out[0].val, SymbolValue::Addr(0x20)));
    assert!(out[0].is_public);
    assert_eq!(out[0].private, 12);
    assert_eq!(w, vec![Warning::SymbolTableTruncated]);
    let mut out = Vec::new();
    let mut w = Vec::new();
    m.push_nlist_symbols(&table, b"\0x\0", 9, 1, false, &mut out, &mut w);
    assert!(out.is_empty());
    assert_eq!(w, vec![Warning::SymbolTableTruncated]);
    let mut w = Vec::new();
    m.push_nlist_symbols(&table, b"\0x\0", usize::MAX, 0, false, &mut out, &mut w);
    assert!(w.is_empty());
    m.push_nlist_symbols(&table, b"\0x\0", usize::MAX, usize::MAX, false, &mut out, &mut w);
    assert_eq!(w, vec![Warning::SymbolTableTruncated]);
}

#[test]
fn cache_symbols_come_first_and_redacted_names_are_skipped() {
    let end = Endian::LittleEndian;
    let mut m = blank(true, end, 6);
    m.linkedit[STRTAB] = b"\0<redacted>\0_pub\0".to_vec();
    m.linkedit[SYMTAB] = [nl64(1, 0x0e, 1, 0, 0x1000, end), nl64(12, 0x0f, 1, 0, 0x2000, end)].concat();
    m.dsc_tabs = Some(DscTabs {
        symtab: [nl64(1, 0x0e, 1, 0, 0x9999, end), nl64(1, 0x0e, 1, 0, 0x1000, end), nl64(8, 0x0e, 1, 0, 0x1004, end)].concat(),
        strtab: b"\0_local\0<redacted>\0".to_vec(),
        start: 1,
        count: 2,
    });
    let mut w = Vec::new();
    let syms = m.get_symbol_list(SymbolSource::All, &mut w);
    assert!(w.is_empty());
    let names: Vec<Vec<u8>> = syms.iter().map(|s| s.name.clone()).collect();
    // The cache's own records are kept even when redacted; the image's are not.
    assert_eq!(names, vec![b"_local".to_vec(), b"<redacted>".to_vec(), b"_pub".to_vec()]);
    assert_eq!(syms[0].private, 16);
    assert_eq!(syms[2].private, 16);
}

#[test]
fn strx_names() {
    let mut w = Vec::new();
    assert_eq!(strx_to_name(b"\0ab\0cd", 1, &mut w), b"ab".to_vec());
    assert_eq!(strx_to_name(b"\0ab\0cd", 4, &mut w), b"cd".to_vec());
    assert_eq!(strx_to_name(b"\0ab\0cd", 0, &mut w), b"".to_vec());
    assert_eq!(strx_to_name(b"", 0, &mut w), b"".to_vec());
    assert!(w.is_empty());
    assert_eq!(strx_to_name(b"\0ab\0cd", 6, &mut w), b"<?>".to_vec());
    assert_eq!(strx_to_name(b"\0ab\0cd", u64::MAX, &mut w), b"<?>".to_vec());
    assert_eq!(w, vec![Warning::SymbolNameOutOfRange, Warning::SymbolNameOutOfRange]);
}

fn sym(val: SymbolValue, public: bool, weak: bool) -> Symbol {
    Symbol { name: b"_s".to_vec(), is_public: public, is_weak: weak, val, size: None, private: 0 }
}

#[test]
fn symbols_become_records() {
    let r = exec_sym_to_nlist_64(&sym(SymbolValue::Addr(0x1000), true, false), 7, None, Arch::X86_64, false).unwrap();
    assert_eq!(r, Nlist { n_strx: 7, n_type: 0x01, n_sect: 0, n_desc: 0, n_value: 0x1000 });
    let r = exec_sym_to_nlist_64(&sym(SymbolValue::Abs(0x20), false, true), 7, None, Arch::X86_64, false).unwrap();
    assert_eq!(r, Nlist { n_strx: 7, n_type: 0x82, n_sect: 0, n_desc: 0, n_value: 0x20 });
    let r = exec_sym_to_nlist_64(&sym(SymbolValue::Undefined(SourceLib::Ordinal(2)), true, true), 7, None, Arch::X86_64, false).unwrap();
    assert_eq!(r, Nlist { n_strx: 7, n_type: 0x41, n_sect: 0, n_desc: 0x0300, n_value: 0 });
    let r = exec_sym_to_nlist_64(&sym(SymbolValue::Undefined(SourceLib::Flat), false, false), 7, None, Arch::X86_64, false).unwrap();
    assert_eq!(r, Nlist { n_strx: 7, n_type: 0, n_sect: 0, n_desc: 0xfe80, n_value: 0 });
    let r = exec_sym_to_nlist_64(&sym(SymbolValue::Undefined(SourceLib::MainExecutable), false, false), 7, None, Arch::X86_64, false).unwrap();
    assert_eq!(r.n_desc, 0xff00);
    let r = exec_sym_to_nlist_64(&sym(SymbolValue::Undefined(SourceLib::Self_), false, false), 7, None, Arch::X86_64, false).unwrap();
    assert_eq!(r.n_desc, 0);
    let r = exec_sym_to_nlist_64(&sym(SymbolValue::Undefined(SourceLib::NoLib), false, false), 7, None, Arch::X86_64, false).unwrap();
    assert_eq!(r.n_desc, 0);
    let r = exec_sym_to_nlist_64(&sym(SymbolValue::Undefined(SourceLib::Ordinal(u32::MAX)), false, false), 7, None, Arch::X86_64, false).unwrap();
    assert_eq!(r.n_desc, 0);
    let r = exec_sym_to_nlist_64(&sym(SymbolValue::Resolver(0x30, None), true, false), 7, None, Arch::X86_64, false).unwrap();
    assert_eq!(r, Nlist { n_strx: 7, n_type: 0x01, n_sect: 0, n_desc: 0x100, n_value: 0x30 });
    let r = exec_sym_to_nlist_64(&sym(SymbolValue::ReExport(b"_t".to_vec()), true, false), 7, Some(99), Arch::X86_64, false).unwrap();
    assert_eq!(r, Nlist { n_strx: 7, n_type: 0x0b, n_sect: 0, n_desc: 0, n_value: 99 });
    assert_eq!(
        exec_sym_to_nlist_64(&sym(SymbolValue::ThreadLocal(1), true, false), 7, None, Arch::X86_64, false),
        Err(MachOError::ThreadLocalSymbol)
    );
    assert_eq!(
        exec_sym_to_nlist_64(&sym(SymbolValue::Resolver(1, Some(2)), true, false), 7, None, Arch::X86_64, false),
        Err(MachOError::ResolverWithStub)
    );
    // Thumb: only odd addresses of ARM text.
    let r = exec_sym_to_nlist_64(&sym(SymbolValue::Addr(0x1001), false, false), 7, None, Arch::ARM, true).unwrap();
    assert_eq!(r, Nlist { n_strx: 7, n_type: 0, n_sect: 0, n_desc: 0x8, n_value: 0x1000 });
    let r = exec_sym_to_nlist_64(&sym(SymbolValue::Addr(0x1001), false, false), 7, None, Arch::ARM, false).unwrap();
    assert_eq!(r.n_value, 0x1001);
    let r = exec_sym_to_nlist_64(&sym(SymbolValue::Addr(0x1001), false, false), 7, None, Arch::X86, true).unwrap();
    assert_eq!(r.n_value, 0x1001);
    let r = exec_sym_to_nlist_64(&sym(SymbolValue::Addr(0x1000), false, false), 7, None, Arch::ARM, true).unwrap();
    assert_eq!(r.n_desc, 0);
}

#[test]
fn symbols_are_gathered_into_new_tables() {
    let end = Endian::LittleEndian;
    let mut m = blank(true, end, 6);
    m.dyld_base = Some(0x1000);
    m.linkedit[STRTAB] = b"\0_loc\0_ext\0_und\0_ind\0".to_vec();
    m.linkedit[SYMTAB] = [
        nl64(1, 0x0e, 1, 0, 0x1000, end),
        nl64(6, 0x0f, 1, 0, 0x2000, end),
        nl64(11, 0x01, 0, 0x0100, 0, end),
        nl64(16, 0x0b, 0, 0, 6, end),
        nl64(1, 0x0e, 1, 0, 0x1008, end),
    ]
    .concat();
    // One export: "_e" at 0x20 past the base.
    m.linkedit[DYLD_EXPORT] = vec![0x00, 0x01, b'_', b'e', 0x00, 0x06, 0x02, 0x00, 0x20, 0x00];
    let mut w = Vec::new();
    let r: ReaggregatedSyms = m.reaggregate_nlist_syms_from_cache(&mut w).unwrap();
    assert!(w.is_empty());
    assert_eq!(r.strtab, b"\0_loc\0_ext\0_und\0_ind\0_e\0".to_vec());
    assert_eq!(r.localsym, [nl64(1, 0x0e, 1, 0, 0x1000, end), nl64(1, 0x0e, 1, 0, 0x1008, end)].concat());
    assert_eq!(
        r.extdefsym,
        [nl64(6, 0x0f, 1, 0, 0x2000, end), nl64(16, 0x0b, 0, 0, 6, end), nl64(21, 0x01, 0, 0, 0x1020, end)].concat()
    );
    assert_eq!(r.undefsym, nl64(11, 0x01, 0, 0x0100, 0, end));
}

#[test]
fn gathering_fails_for_a_thread_local_export() {
    let end = Endian::LittleEndian;
    let mut m = blank(true, end, 6);
    m.dyld_base = Some(0x1000);
    m.linkedit[DYLD_EXPORT] = vec![0x00, 0x01, b'_', b't', 0x00, 0x06, 0x02, 0x01, 0x20, 0x00];
    let mut w = Vec::new();
    assert_eq!(m.reaggregate_nlist_syms_from_cache(&mut w).err(), Some(MachOError::ThreadLocalSymbol));
    let mut m = blank(false, end, 6);
    m.dyld_base = Some(0xffff_fff0);
    m.linkedit[DYLD_EXPORT] = vec![0x00, 0x01, b'_', b't', 0x00, 0x06, 0x02, 0x00, 0x20, 0x00];
    assert_eq!(m.reaggregate_nlist_syms_from_cache(&mut w).err(), Some(MachOError::AddressOverflow));
}
