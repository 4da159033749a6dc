use macho::diag::Warning;
use macho::exec::{Prot, Segment, SymbolSource};
use macho::image::{
    MachO, MachOError, CODE_SIGNATURE, DYLD_BIND, DYLD_EXPORT, EXTDEFSYM, LOCALSYM, NUM_LINKEDIT,
    STRTAB, SYMTAB, UNDEFSYM,
};
use macho::layout::{align_to_page, seg_name_to_macho};
use macho::util::Endian;

fn put32(v: &mut Vec<u8>, x: u32, end: Endian) {
    match end {
        Endian::BigEndian => v.extend_from_slice(&x.to_be_bytes()),
        Endian::LittleEndian => v.extend_from_slice(&x.to_le_bytes()),
    }
}

fn put64(v: &mut Vec<u8>, x: u64, end: Endian) {
    match end {
        Endian::BigEndian => v.extend_from_slice(&x.to_be_bytes()),
        Endian::LittleEndian => v.extend_from_slice(&x.to_le_bytes()),
    }
}

fn get32(v: &[u8], off: usize, end: Endian) -> u32 {
    let b = [v[off], v[off + 1], v[off + 2], v[off + 3]];
    match end {
        Endian::BigEndian => u32::from_be_bytes(b),
        Endian::LittleEndian => u32::from_le_bytes(b),
    }
}

fn get64(v: &[u8], off: usize, end: Endian) -> u64 {
    let mut b = [0u8; 8];
    b.copy_from_slice(&v[off..off + 8]);
    match end {
        Endian::BigEndian => u64::from_be_bytes(b),
        Endian::LittleEndian => u64::from_le_bytes(b),
    }
}

fn name16(s: &str) -> Vec<u8> {
    let mut v = s.as_bytes().to_vec();
    v.resize(16, 0);
    v
}

fn segment64(end: Endian, name: &str, vmaddr: u64, vmsize: u64, fileoff: u64, filesize: u64, prot: u32, flags: u32, sections: &[(&str, u64, u64, u32, u32)]) -> Vec<u8> {
    let mut v = Vec::new();
    put32(&mut v, 0x19, end);
    put32(&mut v, 72 + 80 * sections.len() as u32, end);
    v.extend_from_slice(&name16(name));
    put64(&mut v, vmaddr, end);
    put64(&mut v, vmsize, end);
    put64(&mut v, fileoff, end);
    put64(&mut v, filesize, end);
    put32(&mut v, 5, end);
    put32(&mut v, prot, end);
    put32(&mut v, sections.len() as u32, end);
    put32(&mut v, flags, end);
    for (sname, addr, size, offset, sflags) in sections.iter() {
        v.extend_from_slice(&name16(sname));
        v.extend_from_slice(&name16(name));
        put64(&mut v, *addr, end);
        put64(&mut v, *size, end);
        put32(&mut v, *offset, end);
        put32(&mut v, 4, end); // align
        put32(&mut v, 0, end); // reloff
        put32(&mut v, 0, end); // nreloc
        put32(&mut v, *sflags, end);
        put32(&mut v, 0, end);
        put32(&mut v, 0, end);
        put32(&mut v, 0, end);
    }
    v
}

fn nl64(strx: u32, n_type: u8, n_sect: u8, n_desc: u16, value: u64, end: Endian) -> Vec<u8> {
    let mut v = Vec::new();
    put32(&mut v, strx, end);
    v.push(n_type);
    v.push(n_sect);
    match end {
        Endian::BigEndian => v.extend_from_slice(&n_desc.to_be_bytes()),
        Endian::LittleEndian => v.extend_from_slice(&n_desc.to_le_bytes()),
    }
    put64(&mut v, value, end);
    v
}

struct Sample {
    buf: Vec<u8>,
    bind: Vec<u8>,
    export: Vec<u8>,
    symtab: Vec<u8>,
    strtab: Vec<u8>,
    dylib: Vec<u8>,
}

// A 64-bit image: __TEXT with one section, __LINKEDIT, dyld info, symbol
// tables, one library, and a code signature.
fn sample(end: Endian) -> Sample {
    sample_at(end, 0)
}

// The same image as it lies in a container, `base` bytes from its start:
// all file offsets count from the start of the container.
fn sample_at(end: Endian, base: u32) -> Sample {
    let bind = vec![0x11, 0x40, b'_', b'u', 0x00, 0x70, 0x00, 0x90];
    let export = vec![0x00, 0x01, b'_', b'e', 0x00, 0x06, 0x02, 0x00, 0x20, 0x00];
    let symtab = [
        nl64(1, 0x0e, 1, 0, 0x100000f00, end),
        nl64(4, 0x0f, 1, 0, 0x100000f10, end),
        nl64(7, 0x01, 0, 0x0100, 0, end),
    ]
    .concat();
    let strtab = b"\0_l\0_e\0_u\0".to_vec();
    let sig = vec![0xfa, 0xde, 0x0c, 0xc0];
    // The link-edit data as a linker might lay it out: not in registry order.
    let le_off = base + 0x1000u32;
    let mut linkedit = Vec::new();
    let symoff = le_off + linkedit.len() as u32;
    linkedit.extend_from_slice(&symtab);
    let stroff = le_off + linkedit.len() as u32;
    linkedit.extend_from_slice(&strtab);
    let bind_off = le_off + linkedit.len() as u32;
    linkedit.extend_from_slice(&bind);
    let export_off = le_off + linkedit.len() as u32;
    linkedit.extend_from_slice(&export);
    let sig_off = le_off + linkedit.len() as u32;
    linkedit.extend_from_slice(&sig);

    let text = segment64(end, "__TEXT", 0x100000000, 0x1000, base as u64, 0x1000, 5, 0, &[("__text", 0x100000f00, 0x100, base + 0xf00, 0x80000400)]);
    let le = segment64(end, "__LINKEDIT", 0x100001000, 0x1000, le_off as u64, linkedit.len() as u64, 1, 0, &[]);
    let mut info = Vec::new();
    put32(&mut info, 0x8000_0022, end);
    put32(&mut info, 48, end);
    for f in [0u32, 0, bind_off, bind.len() as u32, 0, 0, 0, 0, export_off, export.len() as u32].iter() {
        put32(&mut info, *f, end);
    }
    let mut st = Vec::new();
    put32(&mut st, 0x2, end);
    put32(&mut st, 24, end);
    put32(&mut st, symoff, end);
    put32(&mut st, 3, end);
    put32(&mut st, stroff, end);
    put32(&mut st, strtab.len() as u32, end);
    let mut dst = Vec::new();
    put32(&mut dst, 0xb, end);
    put32(&mut dst, 80, end);
    for f in [0u32, 1, 1, 1, 2, 1, 0, 0, 0, 0, 0, 0, 0, 0, 0, 0, 0, 0].iter() {
        put32(&mut dst, *f, end);
    }
    let mut dylib = Vec::new();
    put32(&mut dylib, 0xc, end);
    put32(&mut dylib, 40, end);
    put32(&mut dylib, 24, end);
    put32(&mut dylib, 2, end);
    put32(&mut dylib, 0x00010000, end);
    put32(&mut dylib, 0x00010000, end);
    dylib.extend_from_slice(b"/usr/lib/libx\0\0\0");
    let mut cs = Vec::new();
    put32(&mut cs, 0x1d, end);
    put32(&mut cs, 16, end);
    put32(&mut cs, sig_off, end);
    put32(&mut cs, sig.len() as u32, end);

    let cmds = [text, le, info, st, dst, dylib.clone(), cs];
    let size: usize = cmds.iter().map(|c| c.len()).sum();
    let mut buf = vec![0xeeu8; base as usize];
    put32(&mut buf, 0xfeedfacf, end);
    put32(&mut buf, 0x01000007, end);
    put32(&mut buf, 3, end);
    put32(&mut buf, 2, end);
    put32(&mut buf, cmds.len() as u32, end);
    put32(&mut buf, size as u32, end);
    put32(&mut buf, 0x85, end);
    put32(&mut buf, 0, end);
    for c in cmds.iter() {
        buf.extend_from_slice(c);
    }
    buf.resize(base as usize + 0xf00, 0);
    for i in 0..0x100 {
        buf.push(i as u8 ^ 0x5a);
    }
    buf.extend_from_slice(&linkedit);
    Sample { buf, bind, export, symtab, strtab, dylib }
}

#[test]
fn rewriting_lays_the_image_out_anew() {
    for end in [Endian::LittleEndian, Endian::BigEndian] {
        let s = sample(end);
        let mut w = Vec::new();
        let mut m = MachO::new(s.buf.clone(), true, 0, &mut w).unwrap();
        assert!(w.is_empty());
        assert_eq!(m.linkedit[SYMTAB], s.symtab);
        assert_eq!(m.linkedit[CODE_SIGNATURE].len(), 4);
        assert_eq!(m.reallocate(&mut w), Ok(()));
        assert!(w.is_empty());
        // The code signature is gone, and with it its command.
        assert_eq!(m.linkedit[CODE_SIGNATURE], Vec::<u8>::new());
        assert_eq!(m.load_commands.len(), 6);
        assert_eq!(m.mh.ncmds, 6);
        assert_eq!(m.mh.sizeofcmds, 152 + 72 + 48 + 24 + 80 + 40);
        // The link-edit data in the order of the registry.
        let linkedit = [s.bind.clone(), s.export.clone(), s.symtab.clone(), s.strtab.clone()].concat();
        let le = &m.eb.segments[1];
        assert_eq!(le.data, Some(linkedit.clone()));
        assert_eq!(le.filesize, linkedit.len() as u64);
        assert_eq!(le.vmsize, 0x1000);
        assert_eq!(le.fileoff, 0x1000);
        assert_eq!(m.eb.segments[0].fileoff, 0);
        assert_eq!(m.eb.sections[0].fileoff, 0xf00);
        // The commands.
        let text = &m.load_commands[0];
        assert_eq!(text.len(), 152);
        assert_eq!(get32(text, 0, end), 0x19);
        assert_eq!(get32(text, 4, end), 152);
        assert_eq!(&text[8..24], &name16("__TEXT")[..]);
        assert_eq!(get64(text, 24, end), 0x100000000);
        assert_eq!(get64(text, 32, end), 0x1000);
        assert_eq!(get64(text, 40, end), 0);
        assert_eq!(get64(text, 48, end), 0x1000);
        assert_eq!(get32(text, 56, end), 5);
        assert_eq!(get32(text, 60, end), 5);
        assert_eq!(get32(text, 64, end), 1);
        assert_eq!(get32(text, 68, end), 0);
        assert_eq!(&text[72..88], &name16("__text")[..]);
        assert_eq!(&text[88..104], &name16("__TEXT")[..]);
        assert_eq!(get64(text, 104, end), 0x100000f00);
        assert_eq!(get64(text, 112, end), 0x100);
        assert_eq!(get32(text, 120, end), 0xf00);
        assert_eq!(get32(text, 124, end), 4);
        assert_eq!(get32(text, 136, end), 0x80000400);
        let lec = &m.load_commands[1];
        assert_eq!(lec.len(), 72);
        assert_eq!(get64(lec, 40, end), 0x1000);
        assert_eq!(get64(lec, 48, end), linkedit.len() as u64);
        assert_eq!(get32(lec, 60, end), 1);
        let info = &m.load_commands[2];
        assert_eq!(get32(info, 0, end), 0x8000_0022);
        assert_eq!(get32(info, 4, end), 48);
        assert_eq!(get32(info, 8, end), 0);
        assert_eq!(get32(info, 12, end), 0);
        assert_eq!(get32(info, 16, end), 0x1000);
        assert_eq!(get32(info, 20, end), 8);
        assert_eq!(get32(info, 40, end), 0x1008);
        assert_eq!(get32(info, 44, end), 10);
        let st = &m.load_commands[3];
        assert_eq!(get32(st, 0, end), 2);
        assert_eq!(get32(st, 8, end), 0x1012);
        assert_eq!(get32(st, 12, end), 3);
        assert_eq!(get32(st, 16, end), 0x1012 + 48);
        assert_eq!(get32(st, 20, end), 10);
        let dst = &m.load_commands[4];
        assert_eq!(get32(dst, 0, end), 0xb);
        let fields: Vec<u32> = (0..6).map(|i| get32(dst, 8 + 4 * i, end)).collect();
        assert_eq!(fields, vec![0, 1, 1, 1, 2, 1]);
        assert!(dst[32..].iter().all(|b| *b == 0));
        assert_eq!(m.load_commands[5], s.dylib);
        // The bytes of the header's segment.
        let data = m.eb.segments[0].data.clone().unwrap();
        assert_eq!(data.len(), 0x1000);
        assert_eq!(get32(&data, 0, end), 0xfeedfacf);
        assert_eq!(get32(&data, 16, end), 6);
        assert_eq!(get32(&data, 20, end), 416);
        assert_eq!(get32(&data, 24, end), 0x85);
        assert_eq!(get32(&data, 28, end), 0);
        assert_eq!(&data[32..32 + 416], &m.load_commands.concat()[..]);
        // Where the dropped command stood there are zeros now.
        assert!(data[32 + 416..0xf00].iter().all(|b| *b == 0));
        assert_eq!(&data[0xf00..], &s.buf[0xf00..0x1000]);

        assert_eq!(m.rewhole(), Ok(()));
        let whole = m.eb.whole_buf.clone().unwrap();
        assert_eq!(whole.len(), 0x1000 + linkedit.len());
        assert_eq!(&whole[..0x1000], &data[..]);
        assert_eq!(&whole[0x1000..], &linkedit[..]);
        // What was written can be read again and holds the same things.
        let mut w2 = Vec::new();
        let m2 = MachO::new(whole, true, 0, &mut w2).unwrap();
        assert!(w2.is_empty());
        assert_eq!(m2.linkedit[DYLD_BIND], s.bind);
        assert_eq!(m2.linkedit[DYLD_EXPORT], s.export);
        assert_eq!(m2.linkedit[SYMTAB], s.symtab);
        assert_eq!(m2.linkedit[STRTAB], s.strtab);
        assert_eq!(m2.linkedit[LOCALSYM], s.symtab[0..16].to_vec());
        assert_eq!(m2.linkedit[EXTDEFSYM], s.symtab[16..32].to_vec());
        assert_eq!(m2.linkedit[UNDEFSYM], s.symtab[32..48].to_vec());
        assert_eq!(m2.load_dylib.len(), 1);
        assert_eq!(m2.get_symbol_list(SymbolSource::All, &mut w2).len(), 3);
    }
}

#[test]
fn rewriting_twice_gives_the_same_bytes() {
    for end in [Endian::LittleEndian, Endian::BigEndian] {
        let s = sample(end);
        let mut w = Vec::new();
        let mut m = MachO::new(s.buf.clone(), true, 0, &mut w).unwrap();
        assert_eq!(m.reallocate(&mut w), Ok(()));
        assert_eq!(m.rewhole(), Ok(()));
        let first = m.eb.whole_buf.clone().unwrap();
        let cmds = m.load_commands.clone();
        let segs: Vec<(u64, u64, u64, u64)> = m.eb.segments.iter().map(|s| (s.vmaddr, s.vmsize, s.fileoff, s.filesize)).collect();
        assert_eq!(m.reallocate(&mut w), Ok(()));
        assert_eq!(m.rewhole(), Ok(()));
        let second = m.eb.whole_buf.clone().unwrap();
        assert_eq!(first, second);
        assert_eq!(cmds, m.load_commands);
        let segs2: Vec<(u64, u64, u64, u64)> = m.eb.segments.iter().map(|s| (s.vmaddr, s.vmsize, s.fileoff, s.filesize)).collect();
        assert_eq!(segs, segs2);
        assert!(w.is_empty());
        // And so does rewriting what was read from the rewritten file.
        let mut m3 = MachO::new(first.clone(), true, 0, &mut w).unwrap();
        assert_eq!(m3.reallocate(&mut w), Ok(()));
        assert_eq!(m3.rewhole(), Ok(()));
        assert_eq!(m3.eb.whole_buf, Some(first));
    }
}

#[test]
fn rewriting_fails_with_named_errors() {
    let end = Endian::LittleEndian;
    let s = sample(end);
    let mut w = Vec::new();
    let parsed = MachO::new(s.buf.clone(), true, 0, &mut w).unwrap();

    // No segment starts with the header.
    let mut m = parsed.clone();
    m.eb.segments[0].fileoff = 8;
    assert_eq!(m.reallocate(&mut w), Err(MachOError::NoTextSegment));
    let mut m = parsed.clone();
    m.eb.segments[0].filesize = 0;
    assert_eq!(m.reallocate(&mut w), Err(MachOError::NoTextSegment));

    // Link-edit data, but no segment for it.
    let mut m = parsed.clone();
    m.eb.segments[1].name = Some(b"__OTHER".to_vec());
    assert_eq!(m.reallocate(&mut w), Err(MachOError::NewSegmentsUnsupported));
    // Without link-edit data that is no error.
    let mut m = parsed.clone();
    m.eb.segments[1].name = Some(b"__OTHER".to_vec());
    m.linkedit = vec![Vec::new(); NUM_LINKEDIT];
    assert_eq!(m.reallocate(&mut w), Ok(()));
    assert_eq!(m.load_commands.len(), 3);

    // The header's segment does not hold its bytes.
    let mut m = parsed.clone();
    m.eb.segments[0].data = None;
    assert_eq!(m.reallocate(&mut w), Err(MachOError::Truncated));
    let mut m = parsed.clone();
    m.eb.segments[0].data = Some(vec![0u8; 0xfff]);
    assert_eq!(m.reallocate(&mut w), Err(MachOError::Truncated));

    // The space for commands ends past the segment.
    let mut m = parsed.clone();
    m.eb.segments[0].filesize = 0x100;
    m.eb.segments[0].data = Some(s.buf[..0x100].to_vec());
    m.eb.sections[0].fileoff = 0x1000;
    assert_eq!(m.reallocate(&mut w), Err(MachOError::CommandsPastText));

    // A section lies within the header.
    let mut m = parsed.clone();
    m.eb.sections[0].fileoff = 0x10;
    assert_eq!(m.reallocate(&mut w), Err(MachOError::SizeofcmdsTooSmall));

    // A section starts where the commands still are.
    let mut m = parsed.clone();
    m.eb.sections[0].fileoff = 0x100;
    assert_eq!(m.reallocate(&mut w), Err(MachOError::NeedSlide));

    // A new section makes the commands longer than the old ones were.
    let mut m = parsed.clone();
    let mut extra = m.eb.sections[0].clone();
    extra.name = Some(b"__more".to_vec());
    extra.private = None;
    m.eb.sections.push(extra);
    assert_eq!(m.reallocate(&mut w), Err(MachOError::NeedSlide));
    // With the room that three other commands give, it does fit.
    let mut m = parsed.clone();
    m.linkedit[DYLD_BIND] = Vec::new();
    m.linkedit[DYLD_EXPORT] = Vec::new();
    m.load_commands.remove(5);
    let mut extra = m.eb.sections[0].clone();
    extra.name = Some(b"__more".to_vec());
    extra.private = None;
    m.eb.sections.push(extra);
    assert_eq!(m.reallocate(&mut w), Ok(()));
    assert_eq!(m.load_commands[0].len(), 72 + 160);
    assert_eq!(get32(&m.load_commands[0], 4, end), 72 + 160);
    assert_eq!(get32(&m.load_commands[0], 64, end), 2);
    assert_eq!(&m.load_commands[0][152..168], &name16("__more")[..]);
    // The new record has no old one to take its other fields from.
    assert!(m.load_commands[0][152 + 52..].iter().all(|b| *b == 0));
    assert_eq!(m.mh.sizeofcmds, 152 + 80 + 72 + 24 + 80);
    assert_eq!(m.mh.ncmds, 4);
    assert!(w.is_empty());
}

fn seg(name: &str, fileoff: u64, data: &[u8]) -> Segment {
    Segment {
        vmaddr: 0,
        vmsize: data.len() as u64,
        fileoff,
        filesize: data.len() as u64,
        name: Some(name.as_bytes().to_vec()),
        prot: Prot { r: true, w: false, x: false },
        data: Some(data.to_vec()),
        seg_idx: None,
        private: None,
    }
}

#[test]
fn whole_file_is_put_together_from_the_segments() {
    let mut w = Vec::new();
    let s = sample(Endian::LittleEndian);
    let mut m = MachO::new(s.buf.clone(), true, 0, &mut w).unwrap();
    m.eb.segments = vec![seg("a", 4, &[1, 2, 3]), seg("b", 10, &[4, 5]), seg("c", 6, &[9, 9])];
    assert_eq!(m.rewhole(), Ok(()));
    assert_eq!(m.eb.whole_buf, Some(vec![0, 0, 0, 0, 1, 2, 9, 9, 0, 0, 4, 5]));
    m.eb.segments = vec![];
    assert_eq!(m.rewhole(), Ok(()));
    assert_eq!(m.eb.whole_buf, Some(vec![]));
    // A segment that does not hold its bytes: nothing changes.
    m.eb.segments = vec![seg("a", 4, &[1, 2, 3])];
    m.eb.segments[0].filesize = 4;
    assert_eq!(m.rewhole(), Err(MachOError::Truncated));
    assert_eq!(m.eb.whole_buf, Some(vec![]));
    m.eb.segments[0].filesize = 0;
    m.eb.segments[0].data = None;
    m.eb.segments[0].fileoff = 7;
    assert_eq!(m.rewhole(), Ok(()));
    assert_eq!(m.eb.whole_buf, Some(vec![0; 7]));
}

#[test]
fn file_offsets_are_counted_anew() {
    let mut w = Vec::new();
    let s = sample(Endian::LittleEndian);
    let mut m = MachO::new(s.buf.clone(), true, 0, &mut w).unwrap();
    m.eb.segments = vec![seg("a", 0x5000, &[0; 0x1001]), seg("b", 0x100, &[]), seg("c", 0x9000, &[0; 0x1000]), seg("d", 0, &[1])];
    let mut s1 = seg("s1", 0x5010, &[0; 8]);
    s1.seg_idx = Some(0);
    let mut s2 = seg("s2", 0x9800, &[0; 8]);
    s2.seg_idx = Some(2);
    let mut s3 = seg("s3", 0x9900, &[]);
    s3.seg_idx = Some(2);
    let mut s4 = seg("s4", 0x77, &[0; 8]);
    s4.seg_idx = Some(9);
    let mut s5 = seg("s5", 0x88, &[0; 8]);
    s5.seg_idx = None;
    m.eb.sections = vec![s1, s2, s3, s4, s5];
    m.reallocate_seg_offsets();
    let offs: Vec<u64> = m.eb.segments.iter().map(|s| s.fileoff).collect();
    assert_eq!(offs, vec![0, 0x2000, 0x2000, 0x3000]);
    let soffs: Vec<u64> = m.eb.sections.iter().map(|s| s.fileoff).collect();
    assert_eq!(soffs, vec![0x10, 0x2800, 0, 0x77, 0x88]);
    // A second time nothing moves.
    m.reallocate_seg_offsets();
    let offs2: Vec<u64> = m.eb.segments.iter().map(|s| s.fileoff).collect();
    assert_eq!(offs2, offs);
    let soffs2: Vec<u64> = m.eb.sections.iter().map(|s| s.fileoff).collect();
    assert_eq!(soffs2, soffs);
    assert_eq!(align_to_page(0), 0);
    assert_eq!(align_to_page(1), 0x1000);
    assert_eq!(align_to_page(0x1000), 0x1000);
    assert_eq!(align_to_page(0x1001), 0x2000);
    assert_eq!(align_to_page(u64::MAX), 0);
}

#[test]
fn long_names_are_cut_with_a_warning() {
    let mut w = Vec::new();
    let s = seg("__LONGER_THAN_16_BYTES", 0, &[]);
    assert_eq!(seg_name_to_macho(&s, Warning::SegmentNameTooLong, &mut w), b"__LONGER_THAN_16".to_vec());
    assert_eq!(w, vec![Warning::SegmentNameTooLong]);
    let mut w = Vec::new();
    let s = seg("__EXACTLY_16_BYT", 0, &[]);
    assert_eq!(seg_name_to_macho(&s, Warning::SectionNameTooLong, &mut w), b"__EXACTLY_16_BYT".to_vec());
    let mut s = seg("ab", 0, &[]);
    assert_eq!(seg_name_to_macho(&s, Warning::SectionNameTooLong, &mut w), b"ab\0\0\0\0\0\0\0\0\0\0\0\0\0\0".to_vec());
    s.name = None;
    assert_eq!(seg_name_to_macho(&s, Warning::SectionNameTooLong, &mut w), vec![0u8; 16]);
    assert!(w.is_empty());
}

#[test]
fn symbol_table_is_merged_and_split() {
    let mut w = Vec::new();
    let s = sample(Endian::LittleEndian);
    let mut m = MachO::new(s.buf.clone(), true, 0, &mut w).unwrap();
    m.linkedit[LOCALSYM] = vec![1; 16];
    m.linkedit[EXTDEFSYM] = vec![];
    m.linkedit[UNDEFSYM] = vec![3; 32];
    m.xsym_to_symtab();
    assert_eq!(m.linkedit[SYMTAB], [vec![1u8; 16], vec![3u8; 32]].concat());
    assert_eq!(m.linkedit[LOCALSYM], vec![1; 16]);
    m.symtab_to_xsym(&[(0, 16), (16, 16), (32, 16)]);
    assert_eq!(m.linkedit[LOCALSYM], vec![1; 16]);
    assert_eq!(m.linkedit[EXTDEFSYM], vec![3; 16]);
    assert_eq!(m.linkedit[UNDEFSYM], vec![3; 16]);
    let (linkedit, allocs) = m.reallocate_linkedit();
    assert_eq!(allocs.len(), NUM_LINKEDIT);
    assert_eq!(allocs[DYLD_BIND], (0, 8));
    assert_eq!(allocs[DYLD_EXPORT], (8, 10));
    assert_eq!(allocs[SYMTAB], (18, 48));
    assert_eq!(allocs[STRTAB], (66, 10));
    assert_eq!(allocs[CODE_SIGNATURE], (76, 4));
    assert_eq!(allocs[LOCALSYM], (0, 16));
    assert_eq!(allocs[EXTDEFSYM], (16, 16));
    assert_eq!(allocs[UNDEFSYM], (32, 16));
    assert_eq!(linkedit.len(), 80);
    assert_eq!(&linkedit[18..66], &m.linkedit[SYMTAB][..]);
}

#[test]
fn new_segments_come_where_the_first_other_command_stood() {
    let end = Endian::LittleEndian;
    let s = sample(end);
    let mut w = Vec::new();
    let mut m = MachO::new(s.buf.clone(), true, 0, &mut w).unwrap();
    let mut extra = seg("__NEW", 0, &[]);
    extra.vmaddr = 0x200000000;
    extra.prot = Prot { r: true, w: true, x: false };
    m.eb.segments.push(extra);
    let (_, allocs) = m.reallocate_linkedit();
    let cmds = m.update_cmds(0x4000, &allocs, &mut w);
    assert!(w.is_empty());
    let kinds: Vec<u32> = cmds.iter().map(|c| get32(c, 0, end)).collect();
    assert_eq!(kinds, vec![0x19, 0x19, 0x19, 0x8000_0022, 0x2, 0xb, 0xc, 0x1d]);
    let new = &cmds[2];
    assert_eq!(new.len(), 72);
    assert_eq!(&new[8..24], &name16("__NEW")[..]);
    assert_eq!(get64(new, 24, end), 0x200000000);
    assert_eq!(get32(new, 56, end), 7);
    assert_eq!(get32(new, 60, end), 3);
    assert_eq!(get32(new, 64, end), 0);
    // Offsets into the link-edit data start at the given place.
    assert_eq!(get32(&cmds[3], 16, end), 0x4000);
    assert_eq!(get32(&cmds[7], 8, end), 0x4000 + 76);
    assert_eq!(get32(&cmds[7], 12, end), 4);
    let (existing, extra) = m.update_seg_cmds(&mut w);
    assert_eq!(existing.len(), 7);
    assert!(existing[0].is_some() && existing[1].is_some());
    assert!(existing[2..].iter().all(|e| e.is_none()));
    assert_eq!(extra.len(), 1);
    assert_eq!(extra[0], cmds[2]);
}

#[test]
fn odd_sections_warn_when_their_records_are_made() {
    let end = Endian::BigEndian;
    let s = sample(end);
    let mut w = Vec::new();
    let mut m = MachO::new(s.buf.clone(), true, 0, &mut w).unwrap();
    m.eb.segments[0].name = Some(b"__A_SEGMENT_NAME_TOO_LONG".to_vec());
    m.eb.sections[0].name = Some(b"__a_section_name_too_long".to_vec());
    m.eb.sections[0].filesize = 0x80;
    let (existing, extra) = m.update_seg_cmds(&mut w);
    assert_eq!(
        w,
        vec![Warning::SegmentNameTooLong, Warning::SectionNameTooLong, Warning::SectionSizeMismatch]
    );
    assert!(extra.is_empty());
    let text = existing[0].clone().unwrap();
    assert_eq!(&text[8..24], b"__A_SEGMENT_NAME");
    assert_eq!(&text[72..88], b"__a_section_name");
    assert_eq!(&text[88..104], b"__A_SEGMENT_NAME");
    // The size that is written is the size in memory.
    assert_eq!(get64(&text, 112, end), 0x100);
    // A section without bytes in the file, or of equal sizes, does not warn.
    let mut w = Vec::new();
    m.eb.sections[0].filesize = 0;
    m.eb.sections[0].name = None;
    m.eb.segments[0].name = None;
    let (existing, _) = m.update_seg_cmds(&mut w);
    assert!(w.is_empty());
    assert_eq!(&existing[0].clone().unwrap()[72..88], &[0u8; 16]);
}

#[test]
fn image_is_extracted() {
    let end = Endian::LittleEndian;
    let s = sample(end);
    let mut w = Vec::new();
    let mut m = MachO::new(s.buf.clone(), true, 0, &mut w).unwrap();
    assert_eq!(m.extract_as_necessary(&mut w), Ok(()));
    let mut again = MachO::new(s.buf.clone(), true, 0, &mut w).unwrap();
    assert_eq!(again.reallocate(&mut w), Ok(()));
    assert_eq!(again.rewhole(), Ok(()));
    assert_eq!(m.eb.whole_buf, again.eb.whole_buf);
    m.unbind();
    m.fix_objc_from_cache();
    assert_eq!(m.eb.whole_buf, again.eb.whole_buf);
    let mut bad = MachO::new(s.buf.clone(), true, 0, &mut w).unwrap();
    bad.eb.segments[0].fileoff = 1;
    assert_eq!(bad.extract_as_necessary(&mut w), Err(MachOError::NoTextSegment));
}

#[test]
fn an_image_from_a_container_gets_tables_of_its_own() {
    let end = Endian::LittleEndian;
    let s = sample_at(end, 0x2000);
    let alone = sample(end);
    let mut w = Vec::new();
    let mut m = MachO::new(s.buf.clone(), true, 0x2000, &mut w).unwrap();
    assert!(w.is_empty());
    assert_eq!(m.hdr_offset, 0x2000);
    assert_eq!(m.eb.segments[0].fileoff, 0x2000);
    assert_eq!(m.eb.segments[0].data, Some(s.buf[0x2000..0x3000].to_vec()));
    assert_eq!(m.eb.sections[0].fileoff, 0x2f00);
    assert_eq!(m.dyld_base, Some(0x100000000));
    assert_eq!(m.linkedit[SYMTAB], s.symtab);
    assert_eq!(m.extract_as_necessary(&mut w), Ok(()));
    assert!(w.is_empty());
    // The symbols were gathered anew: those of the symbol table, and the
    // export, whose name the string table holds already.
    assert_eq!(m.linkedit[STRTAB], b"\0_l\0_e\0_u\0".to_vec());
    assert_eq!(m.linkedit[LOCALSYM], nl64(1, 0x0e, 1, 0, 0x100000f00, end));
    assert_eq!(
        m.linkedit[EXTDEFSYM],
        [nl64(4, 0x0f, 1, 0, 0x100000f10, end), nl64(4, 0x01, 0, 0, 0x100000020, end)].concat()
    );
    assert_eq!(m.linkedit[UNDEFSYM], nl64(7, 0x01, 0, 0x0100, 0, end));
    assert_eq!(m.linkedit[SYMTAB].len(), 64);
    // The file that was put together stands alone.
    let whole = m.eb.whole_buf.clone().unwrap();
    assert_eq!(m.eb.segments[0].fileoff, 0);
    assert_eq!(m.eb.sections[0].fileoff, 0xf00);
    assert_eq!(&whole[0xf00..0x1000], &alone.buf[0xf00..0x1000]);
    let mut w2 = Vec::new();
    let m2 = MachO::new(whole, true, 0, &mut w2).unwrap();
    assert!(w2.is_empty());
    assert_eq!(m2.linkedit[SYMTAB], m.linkedit[SYMTAB]);
    assert_eq!(m2.linkedit[STRTAB], m.linkedit[STRTAB]);
    assert_eq!(m2.linkedit[DYLD_BIND], s.bind);
    assert_eq!(m2.linkedit[DYLD_EXPORT], s.export);
    let names: Vec<Vec<u8>> = m2.get_symbol_list(SymbolSource::All, &mut w2).iter().map(|s| s.name.clone()).collect();
    assert_eq!(names, vec![b"_l".to_vec(), b"_e".to_vec(), b"_e".to_vec(), b"_u".to_vec()]);
}
