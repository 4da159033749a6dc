use macho::diag::Warning;
use macho::exec::{Arch, ExecBase, SymbolSource, SymbolValue};
use macho::image::{MachHeader, MachO, DYLD_EXPORT, NUM_LINKEDIT};
use macho::util::Endian;

fn image(base: Option<u64>) -> MachO {
    MachO {
        eb: ExecBase {
            arch: Arch::X86_64,
            endian: Endian::LittleEndian,
            segments: Vec::new(),
            sections: Vec::new(),
            whole_buf: None,
        },
        is64: true,
        mh: MachHeader { magic: 0xfeedfacf, cputype: 0x01000007, cpusubtype: 3, filetype: 2, ncmds: 0, sizeofcmds: 0, flags: 0 },
        hdr_offset: 0,
        load_commands: Vec::new(),
        load_dylib: Vec::new(),
        dyld_base: base,
        linkedit: vec![Vec::new(); NUM_LINKEDIT],
        dsc_tabs: None,
    }
}

// root (0): no export, 2 edges: "_a" -> 10, "_b" -> 17
// node 10: export {flags 0, addr 0x20}, 1 edge "c" -> 23
// node 17: export {flags 2 (absolute), addr 0x30}, no edges, two spare bytes
// node 23: export {flags 0x14 (weak, resolver), addr 0x40, resolver 0x50}
fn trie() -> Vec<u8> {
    vec![
        0x00, 0x02, b'_', b'a', 0x00, 10, b'_', b'b', 0x00, 17, // root
        0x02, 0x00, 0x20, 0x01, b'c', 0x00, 23, // node 10
        0x02, 0x02, 0x30, 0x00, 0x00, 0x00, // node 17
        0x03, 0x14, 0x40, 0x50, 0x00, // node 23
    ]
}

#[test]
fn exports_are_read_in_walk_order() {
    let t = trie();
    assert_eq!(t.len(), 28);
    let m = image(Some(0x1000));
    let mut w = Vec::new();
    let out = m.parse_dyld_export(&t, &mut w);
    assert!(w.is_empty());
    // The work list is a stack: the last edge is followed first.
    assert_eq!(out.visited, vec![0, 17, 10, 23]);
    assert_eq!(out.entries.len(), 3);
    let e = &out.entries[0];
    assert_eq!(e.name, b"_b".to_vec());
    assert_eq!(e.addr, 0x30);
    assert_eq!(e.flags, 2);
    assert_eq!(e.resolver, None);
    assert_eq!(e.reexport, None);
    assert_eq!(e.offset, 17);
    let e = &out.entries[1];
    assert_eq!(e.name, b"_a".to_vec());
    assert_eq!(e.addr, 0x1020);
    assert_eq!(e.offset, 10);
    let e = &out.entries[2];
    assert_eq!(e.name, b"_ac".to_vec());
    assert_eq!(e.addr, 0x1040);
    assert_eq!(e.flags, 0x14);
    assert_eq!(e.resolver, Some(0x1050));
    assert_eq!(e.offset, 23);

    let mut m = image(Some(0x1000));
    m.linkedit[DYLD_EXPORT] = t;
    let mut w = Vec::new();
    let syms = m.get_symbol_list(SymbolSource::Exported, &mut w);
    assert_eq!(syms.len(), 3);
    assert!(matches!(syms[0].val, SymbolValue::Abs(0x30)));
    assert!(!syms[0].is_weak);
    assert!(syms[0].is_public);
    assert_eq!(syms[0].private, 17);
    assert!(matches!(syms[1].val, SymbolValue::Addr(0x1020)));
    assert!(matches!(syms[2].val, SymbolValue::Resolver(0x1050, Some(0x1040))));
    assert!(syms[2].is_weak);
    assert_eq!(syms[2].name, b"_ac".to_vec());
}

#[test]
fn a_cycle_is_not_followed() {
    // root (0): export {flags 0, addr 1}; edges: "x" -> 0 (back to the root),
    // "y" -> 13, "z" -> 13; the node at 13 has one edge "q" -> 0.
    let t = vec![
        0x02, 0x00, 0x01, 0x03, b'x', 0x00, 0x00, b'y', 0x00, 13, b'z', 0x00, 13, // root
        0x00, 0x01, b'q', 0x00, 0x00, // node 13
    ];
    let m = image(Some(0));
    let mut w = Vec::new();
    let out = m.parse_dyld_export(&t, &mut w);
    assert_eq!(out.visited, vec![0, 13]);
    assert_eq!(out.entries.len(), 1);
    assert_eq!(out.entries[0].offset, 0);
    assert_eq!(out.entries[0].name, Vec::<u8>::new());
    assert_eq!(
        w,
        vec![Warning::ExportOffsetSeen, Warning::ExportOffsetSeen, Warning::ExportOffsetSeen]
    );
    let mut seen = out.visited.clone();
    seen.sort();
    seen.dedup();
    assert_eq!(seen.len(), out.visited.len());
}

#[test]
fn export_kinds_and_reexports() {
    // root: 3 edges: "t" -> A (thread local), "r" -> B (re-export), "k" -> C (kind 3)
    let mut t = vec![0x00, 0x03, b't', 0x00, 0, b'r', 0x00, 0, b'k', 0x00, 0];
    let a = t.len();
    t.extend_from_slice(&[0x02, 0x01, 0x08, 0x00]);
    let b = t.len();
    // A re-export: flags, an address that is not used, the ordinal, the name.
    t.extend_from_slice(&[0x07, 0x08, 0x00, 0x05, b'_', b'o', b'r', 0x00, 0x00]);
    let c = t.len();
    t.extend_from_slice(&[0x03, 0x23, 0x10, 0xff, 0x00]);
    t[4] = a as u8;
    t[7] = b as u8;
    t[10] = c as u8;
    let mut m = image(Some(0x100));
    let mut w = Vec::new();
    let out = m.parse_dyld_export(&t, &mut w);
    assert_eq!(out.visited, vec![0, c, b, a]);
    assert_eq!(
        w,
        vec![Warning::ExportKindThree, Warning::ExportUnknownFlags, Warning::ExportExcessTerminalData]
    );
    assert_eq!(out.entries.len(), 3);
    assert_eq!(out.entries[0].name, b"k".to_vec());
    assert_eq!(out.entries[0].flags, 0x23);
    assert_eq!(out.entries[0].addr, 0x110);
    assert_eq!(out.entries[1].name, b"r".to_vec());
    assert_eq!(out.entries[1].reexport, Some((5, b"_or".to_vec())));
    assert_eq!(out.entries[2].name, b"t".to_vec());
    m.linkedit[DYLD_EXPORT] = t;
    let mut w = Vec::new();
    let syms = m.get_symbol_list(SymbolSource::Exported, &mut w);
    assert!(matches!(syms[0].val, SymbolValue::Addr(0x110)));
    assert!(matches!(&syms[1].val, SymbolValue::ReExport(n) if n == b"_or"));
    assert!(matches!(syms[2].val, SymbolValue::ThreadLocal(0x108)));
}

fn walk(t: &[u8]) -> (Vec<usize>, usize, Vec<Warning>) {
    let m = image(Some(0x100));
    let mut w = Vec::new();
    let out = m.parse_dyld_export(t, &mut w);
    (out.visited, out.entries.len(), w)
}

#[test]
fn bad_tries_warn_and_the_walk_goes_on() {
    assert_eq!(walk(&[]), (vec![], 0, vec![]));
    let m = image(None);
    let mut w = Vec::new();
    let out = m.parse_dyld_export(&[0x00, 0x00], &mut w);
    assert!(out.visited.is_empty());
    assert_eq!(w, vec![Warning::ExportNoBase]);
    // The terminal size runs past the trie.
    assert_eq!(walk(&[0x05, 0x00]), (vec![0], 0, vec![Warning::ExportTerminalTooBig]));
    // The trie ends before the edge count.
    assert_eq!(walk(&[0x00]), (vec![0], 0, vec![Warning::ExportNoEdgeCount]));
    assert_eq!(walk(&[0x02, 0x00, 0x01]), (vec![0], 1, vec![Warning::ExportNoEdgeCount]));
    // A number cut short.
    assert_eq!(walk(&[0x80]), (vec![0], 0, vec![Warning::BadLeb128]));
    assert_eq!(walk(&[0x01, 0x80, 0x00]), (vec![0], 0, vec![Warning::BadLeb128]));
    // Flags that do not fit 32 bits.
    assert_eq!(
        walk(&[0x06, 0x80, 0x80, 0x80, 0x80, 0x10, 0x00, 0x00]),
        (vec![0], 0, vec![Warning::ExportTooManyFlags])
    );
    // Both resolver and re-export.
    assert_eq!(
        walk(&[0x03, 0x18, 0x01, 0x02, 0x00]),
        (vec![0], 0, vec![Warning::ExportResolverAndReexport])
    );
    // The name of a re-export has no NUL within the terminal part.
    assert_eq!(
        walk(&[0x04, 0x08, 0x01, b'a', b'b', 0x00, 0x00]),
        (vec![0], 0, vec![Warning::ExportBadReexportName])
    );
    // An edge label without a NUL ends the node.
    assert_eq!(walk(&[0x00, 0x02, b'a', b'b']), (vec![0], 0, vec![Warning::ExportBadPrefix]));
    // An edge past the trie is not followed, the next one is.
    assert_eq!(
        walk(&[0x00, 0x02, b'a', 0x00, 0x09, b'b', 0x00, 0x08]),
        (vec![0, 8], 0, vec![Warning::ExportBadLimbOffset, Warning::BadLeb128])
    );
    // An edge whose offset is cut short.
    assert_eq!(walk(&[0x00, 0x01, b'a', 0x00, 0x80]), (vec![0], 0, vec![Warning::BadLeb128]));
}
