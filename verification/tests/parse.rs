use macho::diag::Warning;
use macho::exec::{Arch, ErrorKind, Prot, Segment};
use macho::image::{
    make_linkedit_bits, LoadDylibKind, MachO, MachOError, PackedVersion, DYLD_BIND, DYLD_EXPORT,
    LOCALSYM, NUM_LINKEDIT, STRTAB, SYMTAB, UNDEFSYM,
};
use macho::load_commands::{file_array, file_array_64, fixup_segment_overflow, u32_to_prot};
use macho::util::{find_nul, from_cstr, from_cstr_strict, slice_opt, Endian};

fn put32(v: &mut Vec<u8>, x: u32, end: Endian) {
    match end {
        Endian::BigEndian => v.extend_from_slice(&x.to_be_bytes()),
        Endian::LittleEndian => v.extend_from_slice(&x.to_le_bytes()),
    }
}

fn put64(v: &mut Vec<u8>, x: u64, end: Endian) {
    match end {
        Endian::BigEndian => v.extend_from_slice(&x.to_be_bytes()),
        Endian::LittleEndian => v.extend_from_slice(&x.to_le_bytes()),
    }
}

fn name16(s: &str) -> Vec<u8> {
    let mut v = s.as_bytes().to_vec();
    v.resize(16, 0);
    v
}

fn header(is64: bool, end: Endian, cputype: u32, filetype: u32, ncmds: u32, sizeofcmds: u32) -> Vec<u8> {
    let mut v = Vec::new();
    put32(&mut v, if is64 { 0xfeedfacf } else { 0xfeedface }, end);
    put32(&mut v, cputype, end);
    put32(&mut v, 0, end);
    put32(&mut v, filetype, end);
    put32(&mut v, ncmds, end);
    put32(&mut v, sizeofcmds, end);
    put32(&mut v, 0, end);
    if is64 {
        put32(&mut v, 0, end);
    }
    v
}

fn segment64(end: Endian, name: &str, vmaddr: u64, vmsize: u64, fileoff: u64, filesize: u64, prot: u32, sections: &[(&str, u64, u64, u32)]) -> Vec<u8> {
    let mut v = Vec::new();
    put32(&mut v, 0x19, end);
    put32(&mut v, 72 + 80 * sections.len() as u32, end);
    v.extend_from_slice(&name16(name));
    put64(&mut v, vmaddr, end);
    put64(&mut v, vmsize, end);
    put64(&mut v, fileoff, end);
    put64(&mut v, filesize, end);
    put32(&mut v, 7, end);
    put32(&mut v, prot, end);
    put32(&mut v, sections.len() as u32, end);
    put32(&mut v, 0, end);
    for (sname, addr, size, offset) in sections.iter() {
        v.extend_from_slice(&name16(sname));
        v.extend_from_slice(&name16(name));
        put64(&mut v, *addr, end);
        put64(&mut v, *size, end);
        put32(&mut v, *offset, end);
        for _ in 0..7 {
            put32(&mut v, 0, end);
        }
    }
    v
}

fn segment32(end: Endian, name: &str, vmaddr: u32, vmsize: u32, fileoff: u32, filesize: u32, prot: u32, sections: &[(&str, u32, u32, u32)]) -> Vec<u8> {
    let mut v = Vec::new();
    put32(&mut v, 0x1, end);
    put32(&mut v, 56 + 68 * sections.len() as u32, end);
    v.extend_from_slice(&name16(name));
    put32(&mut v, vmaddr, end);
    put32(&mut v, vmsize, end);
    put32(&mut v, fileoff, end);
    put32(&mut v, filesize, end);
    put32(&mut v, 7, end);
    put32(&mut v, prot, end);
    put32(&mut v, sections.len() as u32, end);
    put32(&mut v, 0, end);
    for (sname, addr, size, offset) in sections.iter() {
        v.extend_from_slice(&name16(sname));
        v.extend_from_slice(&name16(name));
        put32(&mut v, *addr, end);
        put32(&mut v, *size, end);
        put32(&mut v, *offset, end);
        for _ in 0..6 {
            put32(&mut v, 0, end);
        }
    }
    v
}

fn image(is64: bool, end: Endian, filetype: u32, cmds: &[Vec<u8>], total: usize) -> Vec<u8> {
    let size: usize = cmds.iter().map(|c| c.len()).sum();
    let mut v = header(is64, end, if is64 { 0x0100000c } else { 12 }, filetype, cmds.len() as u32, size as u32);
    for c in cmds.iter() {
        v.extend_from_slice(c);
    }
    if v.len() < total {
        v.resize(total, 0);
    }
    v
}

#[test]
fn new_rejects_short_buffer_and_bad_magic() {
    let mut w = Vec::new();
    assert_eq!(MachO::new(vec![0xfe, 0xed, 0xfa], true, 0, &mut w).err(), Some(MachOError::Truncated));
    assert_eq!(MachO::new(vec![0u8; 27], true, 0, &mut w).err(), Some(MachOError::Truncated));
    assert_eq!(MachO::new(vec![0u8; 64], true, 0, &mut w).err(), Some(MachOError::BadMagic));
    assert_eq!(MachO::new(vec![0u8; 64], true, 60, &mut w).err(), Some(MachOError::Truncated));
    assert_eq!(MachO::new(vec![0u8; 64], true, usize::MAX, &mut w).err(), Some(MachOError::Truncated));
    assert!(w.is_empty());
    assert_eq!(MachOError::Truncated.kind(), ErrorKind::BadData);
    assert_eq!(MachOError::BadMagic.kind(), ErrorKind::BadData);
    assert_eq!(MachOError::NeedSlide.kind(), ErrorKind::Other);
    assert_eq!(MachOError::BadMagic.message(), "bad magic");
    assert_eq!(MachOError::Truncated.message(), "truncated");
}

#[test]
fn new_reads_all_four_magics() {
    for (is64, end) in [(false, Endian::BigEndian), (true, Endian::BigEndian), (false, Endian::LittleEndian), (true, Endian::LittleEndian)] {
        let buf = image(is64, end, 2, &[], 0);
        let mut w = Vec::new();
        let m = MachO::new(buf.clone(), true, 0, &mut w).unwrap();
        assert_eq!(m.is64, is64);
        assert_eq!(m.eb.endian, end);
        assert_eq!(m.mh.magic, if is64 { 0xfeedfacf } else { 0xfeedface });
        assert_eq!(m.mh.filetype, 2);
        assert_eq!(m.mh.ncmds, 0);
        assert_eq!(m.eb.arch, if is64 { Arch::AArch64 } else { Arch::ARM });
        assert_eq!(m.eb.whole_buf, Some(buf));
        assert_eq!(m.linkedit.len(), NUM_LINKEDIT);
        assert_eq!(m.nlist_size(), if is64 { 16 } else { 12 });
        assert_eq!(m.page_size(), 0x1000);
        assert!(w.is_empty());
    }
}

#[test]
fn new_reads_header_at_an_offset() {
    let end = Endian::LittleEndian;
    let seg = segment64(end, "__TEXT", 0x1000, 0x2000, 0, 0x40, 5, &[]);
    let inner = image(true, end, 6, &[seg], 0);
    let mut buf = vec![0xaau8; 0x20];
    buf.extend_from_slice(&inner);
    let mut w = Vec::new();
    let m = MachO::new(buf, true, 0x20, &mut w).unwrap();
    assert_eq!(m.hdr_offset, 0x20);
    assert_eq!(m.eb.segments.len(), 1);
    // A file offset of 0 stands for the place of the header.
    assert_eq!(m.eb.segments[0].fileoff, 0x20);
    assert_eq!(m.eb.segments[0].filesize, 0x40);
    assert_eq!(m.dyld_base, Some(0x1000));
    assert_eq!(m.load_commands.len(), 1);
}

#[test]
fn segments_and_sections_are_read() {
    let end = Endian::BigEndian;
    let text = segment64(end, "__TEXT", 0x100000000, 0x1000, 0, 0x200, 5, &[("__text", 0x100000100, 0x80, 0x100), ("__bss", 0x100000180, 0x40, 0)]);
    let data = segment64(end, "__DATA", 0x100001000, 0x1000, 0x200, 0x10, 3, &[]);
    let buf = image(true, end, 2, &[text.clone(), data.clone()], 0x210);
    let mut w = Vec::new();
    let m = MachO::new(buf.clone(), true, 0, &mut w).unwrap();
    assert!(w.is_empty());
    assert_eq!(m.eb.segments.len(), 2);
    assert_eq!(m.eb.sections.len(), 2);
    let s0 = &m.eb.segments[0];
    assert_eq!(s0.name, Some(b"__TEXT".to_vec()));
    assert_eq!(s0.vmaddr, 0x100000000);
    assert_eq!(s0.vmsize, 0x1000);
    assert_eq!(s0.fileoff, 0);
    assert_eq!(s0.filesize, 0x200);
    assert_eq!(s0.prot, Prot { r: true, w: false, x: true });
    assert_eq!(s0.data, Some(buf[0..0x200].to_vec()));
    assert_eq!(s0.seg_idx, None);
    assert_eq!(s0.private, Some(0));
    let s1 = &m.eb.segments[1];
    assert_eq!(s1.name, Some(b"__DATA".to_vec()));
    assert_eq!(s1.prot, Prot { r: true, w: true, x: false });
    assert_eq!(s1.data, Some(buf[0x200..0x210].to_vec()));
    assert_eq!(s1.private, Some(1));
    let t = &m.eb.sections[0];
    assert_eq!(t.name, Some(b"__text".to_vec()));
    assert_eq!(t.vmaddr, 0x100000100);
    assert_eq!(t.vmsize, 0x80);
    assert_eq!(t.fileoff, 0x100);
    assert_eq!(t.filesize, 0x80);
    assert_eq!(t.seg_idx, Some(0));
    assert_eq!(t.private, Some(0));
    assert_eq!(t.data, None);
    assert_eq!(t.prot, Prot { r: true, w: false, x: true });
    let b = &m.eb.sections[1];
    assert_eq!(b.name, Some(b"__bss".to_vec()));
    assert_eq!(b.fileoff, 0);
    assert_eq!(b.filesize, 0);
    assert_eq!(b.vmsize, 0x40);
    assert_eq!(b.private, Some(1));
    assert_eq!(m.load_commands, vec![text, data]);
    assert_eq!(m.dyld_base, Some(0x100000000));
}

#[test]
fn thirty_two_bit_segments_are_read() {
    let end = Endian::LittleEndian;
    let text = segment32(end, "__TEXT", 0x1000, 0x1000, 0, 0x100, 5, &[("__text", 0x1080, 0x20, 0x80)]);
    let buf = image(false, end, 2, &[text], 0x100);
    let mut w = Vec::new();
    let m = MachO::new(buf, true, 0, &mut w).unwrap();
    assert!(w.is_empty());
    assert_eq!(m.eb.segments.len(), 1);
    assert_eq!(m.eb.segments[0].vmaddr, 0x1000);
    assert_eq!(m.eb.segments[0].filesize, 0x100);
    assert_eq!(m.eb.sections.len(), 1);
    assert_eq!(m.eb.sections[0].vmaddr, 0x1080);
    assert_eq!(m.eb.sections[0].vmsize, 0x20);
    assert_eq!(m.eb.sections[0].fileoff, 0x80);
    assert_eq!(m.eb.sections[0].seg_idx, Some(0));
}

#[test]
fn without_load_commands_only_the_header_is_read() {
    let end = Endian::LittleEndian;
    let text = segment64(end, "__TEXT", 0x1000, 0x1000, 0, 0x100, 5, &[]);
    let buf = image(true, end, 2, &[text], 0x100);
    let mut w = Vec::new();
    let m = MachO::new(buf, false, 0, &mut w).unwrap();
    assert_eq!(m.mh.ncmds, 1);
    assert!(m.eb.segments.is_empty());
    assert!(m.load_commands.is_empty());
    assert_eq!(m.dyld_base, None);
}

#[test]
fn truncated_load_commands_keep_what_was_read() {
    let end = Endian::LittleEndian;
    let text = segment64(end, "__TEXT", 0x1000, 0x1000, 0, 0x20, 5, &[]);
    // Three commands are declared, one is there.
    let mut buf = header(true, end, 0x0100000c, 2, 3, 72);
    buf.extend_from_slice(&text);
    let mut w = Vec::new();
    let m = MachO::new(buf.clone(), true, 0, &mut w).unwrap();
    assert_eq!(m.eb.segments.len(), 1);
    assert_eq!(w, vec![Warning::LoadCommandsTruncated]);
    assert_eq!(m.dyld_base, Some(0x1000));
    // A command whose size runs past the buffer.
    let mut buf2 = header(true, end, 0x0100000c, 2, 2, 72);
    buf2.extend_from_slice(&text);
    put32(&mut buf2, 0x2, end);
    put32(&mut buf2, 24, end);
    let mut w2 = Vec::new();
    let m2 = MachO::new(buf2, true, 0, &mut w2).unwrap();
    assert_eq!(m2.eb.segments.len(), 1);
    assert_eq!(m2.load_commands.len(), 1);
    assert_eq!(w2, vec![Warning::LoadCommandTooBig]);
}

#[test]
fn short_segment_command_and_missing_sections_warn() {
    let end = Endian::LittleEndian;
    let mut short = Vec::new();
    put32(&mut short, 0x19, end);
    put32(&mut short, 16, end);
    put64(&mut short, 0, end);
    let mut text = segment64(end, "__TEXT", 0x1000, 0x1000, 0, 0x20, 5, &[("__text", 0x1000, 0x10, 0x10)]);
    // Two sections are declared, one is there.
    text[64..68].copy_from_slice(&2u32.to_le_bytes());
    let buf = image(true, end, 2, &[short, text], 0);
    let mut w = Vec::new();
    let m = MachO::new(buf, true, 0, &mut w).unwrap();
    assert_eq!(w, vec![Warning::SegmentCommandTooSmall, Warning::SectionsTruncated]);
    assert_eq!(m.eb.segments.len(), 1);
    assert_eq!(m.eb.segments[0].private, Some(1));
    assert_eq!(m.eb.sections.len(), 1);
    assert_eq!(m.eb.sections[0].seg_idx, Some(0));
    assert_eq!(m.load_commands.len(), 2);
}

#[test]
fn overflowing_segment_is_cut_in_a_64_bit_image() {
    let end = Endian::LittleEndian;
    let seg = segment64(end, "__BIG", 0xffff_ffff_ffff_f000, 0x2000, 0xffff_ffff_ffff_ff00, 0x200, 1, &[]);
    let buf = image(true, end, 2, &[seg], 0);
    let mut w = Vec::new();
    let m = MachO::new(buf, true, 0, &mut w).unwrap();
    assert_eq!(w, vec![Warning::VmOverflow, Warning::FileOverflow]);
    assert_eq!(m.eb.segments[0].vmaddr, 0xffff_ffff_ffff_f000);
    assert_eq!(m.eb.segments[0].vmsize, 0xfff);
    assert_eq!(m.eb.segments[0].vmaddr + m.eb.segments[0].vmsize, u64::MAX);
    assert_eq!(m.eb.segments[0].filesize, 0xff);
    assert_eq!(m.eb.segments[0].data, None);
}

fn plain_segment(vmaddr: u64, vmsize: u64, fileoff: u64, filesize: u64) -> Segment {
    Segment {
        vmaddr,
        vmsize,
        fileoff,
        filesize,
        name: None,
        prot: Prot { r: true, w: false, x: false },
        data: None,
        seg_idx: None,
        private: None,
    }
}

#[test]
fn overflow_rule_cuts_at_64_bits_and_only_warns_at_32() {
    let mut w = Vec::new();
    let mut s = plain_segment(u64::MAX - 5, 10, 0x10, 0x20);
    fixup_segment_overflow(&mut s, true, &mut w);
    assert_eq!(s.vmsize, 5);
    assert_eq!(s.filesize, 0x20);
    assert_eq!(w, vec![Warning::VmOverflow]);

    let mut w = Vec::new();
    let mut s = plain_segment(0x10, 0x20, u64::MAX, 1);
    fixup_segment_overflow(&mut s, true, &mut w);
    assert_eq!(s.vmsize, 0x20);
    assert_eq!(s.filesize, 0);
    assert_eq!(w, vec![Warning::FileOverflow]);

    // At the edge nothing overflows.
    let mut w = Vec::new();
    let mut s = plain_segment(u64::MAX - 5, 5, u32::MAX as u64 - 1, 1);
    fixup_segment_overflow(&mut s, true, &mut w);
    assert_eq!(s.vmsize, 5);
    assert!(w.is_empty());
    fixup_segment_overflow(&mut s, false, &mut w);
    assert_eq!(w, vec![Warning::VmOverflow32]);

    let mut w = Vec::new();
    let mut s = plain_segment(0xffff_fff0, 0x20, 0xffff_ff00, 0x200);
    fixup_segment_overflow(&mut s, false, &mut w);
    assert_eq!(s.vmaddr, 0xffff_fff0);
    assert_eq!(s.vmsize, 0x20);
    assert_eq!(s.fileoff, 0xffff_ff00);
    assert_eq!(s.filesize, 0x200);
    assert_eq!(w, vec![Warning::VmOverflow32, Warning::FileOverflow32]);

    let mut w = Vec::new();
    let mut s = plain_segment(0xffff_fff0, 0xf, 0, 0xffff_ffff);
    fixup_segment_overflow(&mut s, false, &mut w);
    assert!(w.is_empty());
}

#[test]
fn protection_bits() {
    assert_eq!(u32_to_prot(0), Prot { r: false, w: false, x: false });
    assert_eq!(u32_to_prot(1), Prot { r: true, w: false, x: false });
    assert_eq!(u32_to_prot(2), Prot { r: false, w: true, x: false });
    assert_eq!(u32_to_prot(4), Prot { r: false, w: false, x: true });
    assert_eq!(u32_to_prot(7), Prot { r: true, w: true, x: true });
    assert_eq!(u32_to_prot(0xfffffff8), Prot { r: false, w: false, x: false });
}

#[test]
fn regions_are_clamped_to_the_buffer() {
    let buf: Vec<u8> = (0u8..100).collect();
    let mut w = Vec::new();
    assert_eq!(file_array(&buf, 10, 5, 4, &mut w), buf[10..30].to_vec());
    assert!(w.is_empty());
    assert_eq!(file_array(&buf, 100, 0, 4, &mut w), Vec::<u8>::new());
    assert!(w.is_empty());
    assert_eq!(file_array(&buf, 101, 1, 4, &mut w), Vec::<u8>::new());
    assert_eq!(w, vec![Warning::RegionStartsPastEnd]);
    let mut w = Vec::new();
    // 90 bytes are left from offset 10: 7 elements of 12 bytes fit.
    assert_eq!(file_array(&buf, 10, 8, 12, &mut w), buf[10..94].to_vec());
    assert_eq!(w, vec![Warning::RegionTruncated]);
    let mut w = Vec::new();
    assert_eq!(file_array_64(&buf, 96, u64::MAX, 16, &mut w), Vec::<u8>::new());
    assert_eq!(w, vec![Warning::RegionTruncated]);
    let mut w = Vec::new();
    assert_eq!(file_array_64(&buf, u64::MAX, 1, 1, &mut w), Vec::<u8>::new());
    assert_eq!(w, vec![Warning::RegionStartsPastEnd]);
}

fn symtab_cmd(end: Endian, symoff: u32, nsyms: u32, stroff: u32, strsize: u32) -> Vec<u8> {
    let mut v = Vec::new();
    put32(&mut v, 0x2, end);
    put32(&mut v, 24, end);
    put32(&mut v, symoff, end);
    put32(&mut v, nsyms, end);
    put32(&mut v, stroff, end);
    put32(&mut v, strsize, end);
    v
}

fn dysymtab_cmd(end: Endian, fields: [u32; 18]) -> Vec<u8> {
    let mut v = Vec::new();
    put32(&mut v, 0xb, end);
    put32(&mut v, 80, end);
    for f in fields.iter() {
        put32(&mut v, *f, end);
    }
    v
}

#[test]
fn link_edit_regions_come_from_the_registry() {
    let end = Endian::LittleEndian;
    let symtab = symtab_cmd(end, 0x100, 3, 0x130, 0x10);
    let mut fields = [0u32; 18];
    fields[0] = 0; // ilocalsym
    fields[1] = 1; // nlocalsym
    fields[2] = 1; // iextdefsym
    fields[3] = 1; // nextdefsym
    fields[4] = 2; // iundefsym
    fields[5] = 1; // nundefsym
    let dysymtab = dysymtab_cmd(end, fields);
    let mut info = Vec::new();
    put32(&mut info, 0x8000_0022, end);
    put32(&mut info, 48, end);
    for f in [0u32, 0, 0x140, 4, 0, 0, 0, 0, 0x144, 6].iter() {
        put32(&mut info, *f, end);
    }
    let mut buf = image(true, end, 2, &[symtab, dysymtab, info], 0x150);
    for i in 0x100..0x150 {
        buf[i] = i as u8;
    }
    let mut w = Vec::new();
    let m = MachO::new(buf.clone(), true, 0, &mut w).unwrap();
    assert!(w.is_empty());
    assert_eq!(m.linkedit[SYMTAB], buf[0x100..0x130].to_vec());
    assert_eq!(m.linkedit[STRTAB], buf[0x130..0x140].to_vec());
    assert_eq!(m.linkedit[LOCALSYM], buf[0x100..0x110].to_vec());
    assert_eq!(m.linkedit[LOCALSYM + 1], buf[0x110..0x120].to_vec());
    assert_eq!(m.linkedit[UNDEFSYM], buf[0x120..0x130].to_vec());
    assert_eq!(m.linkedit[DYLD_BIND], buf[0x140..0x144].to_vec());
    assert_eq!(m.linkedit[DYLD_EXPORT], buf[0x144..0x14a].to_vec());
    assert_eq!(m.region(SYMTAB), &buf[0x100..0x130]);
    assert_eq!(m.load_commands.len(), 3);
}

#[test]
fn symbol_ranges_before_the_symbol_table_are_empty() {
    let end = Endian::LittleEndian;
    let mut fields = [0u32; 18];
    fields[1] = 1;
    let dysymtab = dysymtab_cmd(end, fields);
    let symtab = symtab_cmd(end, 0x100, 1, 0x110, 0x200);
    let buf = image(true, end, 2, &[dysymtab, symtab], 0x120);
    let mut w = Vec::new();
    let m = MachO::new(buf.clone(), true, 0, &mut w).unwrap();
    // The symbol table is not known yet when the ranges are cut out of it,
    // and the string table runs past the file.
    assert_eq!(w, vec![Warning::RegionTruncated, Warning::RegionTruncated]);
    assert_eq!(m.linkedit[LOCALSYM], Vec::<u8>::new());
    assert_eq!(m.linkedit[SYMTAB], buf[0x100..0x110].to_vec());
    assert_eq!(m.linkedit[STRTAB], buf[0x110..0x120].to_vec());
}

#[test]
fn short_link_edit_command_warns_for_each_field_pair() {
    let end = Endian::LittleEndian;
    let mut cmd = Vec::new();
    put32(&mut cmd, 0x2, end);
    put32(&mut cmd, 16, end);
    put32(&mut cmd, 0, end);
    put32(&mut cmd, 0, end);
    let buf = image(true, end, 2, &[cmd], 0);
    let mut w = Vec::new();
    let m = MachO::new(buf, true, 0, &mut w).unwrap();
    // The symbol table's fields are there, those of the string table are not.
    assert_eq!(w, vec![Warning::LinkeditCommandTooSmall]);
    assert_eq!(m.linkedit[SYMTAB], Vec::<u8>::new());
}

fn dylib_cmd(end: Endian, cmd: u32, name_off: u32, path: &[u8], total: u32) -> Vec<u8> {
    let mut v = Vec::new();
    put32(&mut v, cmd, end);
    put32(&mut v, total, end);
    put32(&mut v, name_off, end);
    put32(&mut v, 1234, end);
    put32(&mut v, 0x00010203, end);
    put32(&mut v, 0x00040506, end);
    v.extend_from_slice(path);
    v.resize(total as usize, 0);
    v
}

#[test]
fn libraries_are_read_with_kind_and_versions() {
    let end = Endian::BigEndian;
    let a = dylib_cmd(end, 0xc, 24, b"/usr/lib/libSystem.B.dylib\0", 56);
    let b = dylib_cmd(end, 0x8000_0018, 24, b"/weak", 32);
    let c = dylib_cmd(end, 0x8000_001f, 24, b"/re\0", 32);
    let d = dylib_cmd(end, 0x8000_0023, 24, b"/up\0", 32);
    let buf = image(true, end, 2, &[a, b, c, d], 0);
    let mut w = Vec::new();
    let m = MachO::new(buf, true, 0, &mut w).unwrap();
    assert!(w.is_empty());
    assert_eq!(m.load_dylib.len(), 4);
    assert_eq!(m.load_dylib[0].path, b"/usr/lib/libSystem.B.dylib".to_vec());
    assert_eq!(m.load_dylib[0].kind, LoadDylibKind::Normal);
    assert_eq!(m.load_dylib[0].timestamp, 1234);
    assert_eq!(m.load_dylib[0].current_version, PackedVersion(0x00010203));
    assert_eq!(m.load_dylib[0].compatibility_version, PackedVersion(0x00040506));
    assert_eq!(m.load_dylib[1].path, b"/weak".to_vec());
    assert_eq!(m.load_dylib[1].kind, LoadDylibKind::Weak);
    assert_eq!(m.load_dylib[2].kind, LoadDylibKind::Reexport);
    assert_eq!(m.load_dylib[3].kind, LoadDylibKind::Upward);
    let deps = m.get_dep_libs();
    assert_eq!(deps.len(), 4);
    assert_eq!(deps[2].path, b"/re".to_vec());
    assert_eq!(deps[2].private, 2);
}

#[test]
fn bad_library_commands_are_survived() {
    let end = Endian::LittleEndian;
    let mut short = Vec::new();
    put32(&mut short, 0xc, end);
    put32(&mut short, 16, end);
    put64(&mut short, 0, end);
    let runs_off = dylib_cmd(end, 0xc, 24, b"abcdefgh", 32);
    let bad_off = dylib_cmd(end, 0xc, 33, b"x\0", 32);
    let at_end = dylib_cmd(end, 0xc, 32, b"x\0", 32);
    let buf = image(true, end, 2, &[short, runs_off, bad_off, at_end], 0);
    let mut w = Vec::new();
    let m = MachO::new(buf, true, 0, &mut w).unwrap();
    assert_eq!(
        w,
        vec![
            Warning::DylibCommandTooSmall,
            Warning::DylibNameRunsOff,
            Warning::DylibNameBadOffset,
            Warning::DylibNameRunsOff,
        ]
    );
    assert_eq!(m.load_dylib.len(), 3);
    assert_eq!(m.load_dylib[0].path, b"abcdefgh".to_vec());
    assert_eq!(m.load_dylib[1].path, b"<err>".to_vec());
    assert_eq!(m.load_dylib[2].path, Vec::<u8>::new());
    assert_eq!(m.load_commands.len(), 4);
}

#[test]
fn dyld_base_is_the_first_segment_at_the_header() {
    let end = Endian::LittleEndian;
    let zero = segment64(end, "__PAGEZERO", 0, 0x1000, 0, 0, 0, &[]);
    let text = segment64(end, "__TEXT", 0x4000, 0x1000, 0, 0x100, 5, &[]);
    let other = segment64(end, "__OTHER", 0x8000, 0x1000, 0, 0x100, 5, &[]);
    let buf = image(true, end, 2, &[zero, text, other], 0x100);
    let mut w = Vec::new();
    let mut m = MachO::new(buf, true, 0, &mut w).unwrap();
    assert_eq!(m.dyld_base, Some(0x4000));
    m.eb.segments[1].filesize = 0;
    m.update_dyld_base();
    assert_eq!(m.dyld_base, Some(0x8000));
    m.eb.segments[2].fileoff = 8;
    m.update_dyld_base();
    // No segment qualifies: the base stays.
    assert_eq!(m.dyld_base, Some(0x8000));
}

#[test]
fn registry_has_22_entries_in_layout_order() {
    let bits = make_linkedit_bits(true);
    assert_eq!(bits.len(), 22);
    assert_eq!(bits[0].cmd_id, 0x22);
    assert_eq!(bits[SYMTAB].cmd_id, 0x2);
    assert_eq!(bits[SYMTAB].cmd_off_field_off, 8);
    assert_eq!(bits[SYMTAB].cmd_count_field_off, 12);
    assert_eq!(bits[SYMTAB].elm_size, 16);
    assert!(!bits[SYMTAB].is_symtab);
    assert_eq!(bits[STRTAB].cmd_off_field_off, 16);
    assert_eq!(bits[STRTAB].elm_size, 1);
    assert_eq!(bits[LOCALSYM].cmd_id, 0xb);
    assert!(bits[LOCALSYM].is_symtab);
    assert!(bits[UNDEFSYM].is_symtab);
    assert_eq!(bits[UNDEFSYM].cmd_off_field_off, 24);
    assert_eq!(bits.iter().filter(|b| b.is_symtab).count(), 3);
    let bits32 = make_linkedit_bits(false);
    assert_eq!(bits32[SYMTAB].elm_size, 12);
    assert_eq!(bits32[15].elm_size, 52);
    assert_eq!(bits[15].elm_size, 56);
}

#[test]
fn c_strings_end_at_the_first_nul() {
    assert_eq!(from_cstr(b"abc\0def"), b"abc");
    assert_eq!(from_cstr(b"abc"), b"abc");
    assert_eq!(from_cstr(b"\0abc"), b"");
    assert_eq!(from_cstr(b""), b"");
    assert_eq!(from_cstr_strict(b"abc\0def"), Some(&b"abc"[..]));
    assert_eq!(from_cstr_strict(b"abc"), None);
    assert_eq!(from_cstr_strict(b""), None);
    assert_eq!(find_nul(b"ab\0cd\0", 3), 5);
    assert_eq!(find_nul(b"ab\0cd", 3), 5);
    assert_eq!(slice_opt(b"abcdef", 2, 4), Some(&b"cd"[..]));
    assert_eq!(slice_opt(b"abcdef", 2, 7), None);
    assert_eq!(slice_opt(b"abcdef", 4, 2), None);
    assert_eq!(slice_opt(b"abcdef", 6, 6), Some(&b""[..]));
}
