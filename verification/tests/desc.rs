use macho::desc::{mach_arch_desc, push_decimal, push_decimal_i32};
use macho::exec::{Arch, DepLib, ExecBase};
use macho::image::{LoadDylib, LoadDylibKind, MachHeader, MachO, PackedVersion, NUM_LINKEDIT};
use macho::util::Endian;

fn image(cputype: u32, cpusubtype: u32, filetype: u32) -> MachO {
    MachO {
        eb: ExecBase {
            arch: Arch::UnknownArch,
            endian: Endian::LittleEndian,
            segments: Vec::new(),
            sections: Vec::new(),
            whole_buf: None,
        },
        is64: true,
        mh: MachHeader { magic: 0xfeedfacf, cputype, cpusubtype, filetype, ncmds: 0, sizeofcmds: 0, flags: 0 },
        hdr_offset: 0,
        load_commands: Vec::new(),
        load_dylib: Vec::new(),
        dyld_base: None,
        linkedit: vec![Vec::new(); NUM_LINKEDIT],
        dsc_tabs: None,
    }
}

#[test]
fn architecture_names() {
    assert_eq!(mach_arch_desc(0x0100000c, 0), Some("arm64"));
    assert_eq!(mach_arch_desc(0x0100000c, 1), Some("arm64v8"));
    assert_eq!(mach_arch_desc(0x0100000c, 0x80000000), Some("arm64"));
    assert_eq!(mach_arch_desc(0x01000007, 3), Some("x86_64"));
    assert_eq!(mach_arch_desc(0x01000007, 0x80000003), Some("x86_64"));
    assert_eq!(mach_arch_desc(7, 3), Some("i386"));
    assert_eq!(mach_arch_desc(7, 4), Some("i486"));
    assert_eq!(mach_arch_desc(7, 132), Some("i486SX"));
    assert_eq!(mach_arch_desc(7, 5), Some("pentium"));
    assert_eq!(mach_arch_desc(7, 22), Some("pentpro"));
    assert_eq!(mach_arch_desc(7, 54), Some("pentIIm3"));
    assert_eq!(mach_arch_desc(7, 86), Some("pentIIm5"));
    assert_eq!(mach_arch_desc(7, 10), Some("pentium4"));
    assert_eq!(mach_arch_desc(12, 0), Some("arm"));
    assert_eq!(mach_arch_desc(12, 5), Some("armv4t"));
    assert_eq!(mach_arch_desc(12, 6), Some("armv6"));
    assert_eq!(mach_arch_desc(12, 7), Some("armv5"));
    assert_eq!(mach_arch_desc(12, 8), Some("xscale"));
    assert_eq!(mach_arch_desc(12, 9), Some("armv7"));
    assert_eq!(mach_arch_desc(12, 10), Some("armv7f"));
    assert_eq!(mach_arch_desc(12, 11), Some("armv7s"));
    assert_eq!(mach_arch_desc(12, 12), Some("armv7k"));
    assert_eq!(mach_arch_desc(18, 0), Some("ppc"));
    assert_eq!(mach_arch_desc(18, 1), Some("ppc601"));
    assert_eq!(mach_arch_desc(18, 3), Some("ppc603"));
    assert_eq!(mach_arch_desc(18, 4), Some("ppc603e"));
    assert_eq!(mach_arch_desc(18, 5), Some("ppc603ev"));
    assert_eq!(mach_arch_desc(18, 6), Some("ppc604"));
    assert_eq!(mach_arch_desc(18, 7), Some("ppc604e"));
    assert_eq!(mach_arch_desc(18, 9), Some("ppc750"));
    assert_eq!(mach_arch_desc(18, 10), Some("ppc7400"));
    assert_eq!(mach_arch_desc(18, 11), Some("ppc7450"));
    assert_eq!(mach_arch_desc(18, 100), Some("ppc970"));
    assert_eq!(mach_arch_desc(0x01000012, 0), Some("ppc64"));
    assert_eq!(mach_arch_desc(0x01000012, 100), Some("ppc970-64"));
    assert_eq!(mach_arch_desc(11, 0), Some("hppa"));
    assert_eq!(mach_arch_desc(11, 1), Some("hppa7100LC"));
    assert_eq!(mach_arch_desc(6, 1), Some("m68k"));
    assert_eq!(mach_arch_desc(6, 2), Some("m68040"));
    assert_eq!(mach_arch_desc(6, 3), Some("m68030"));
    assert_eq!(mach_arch_desc(13, 0), Some("m88k"));
    assert_eq!(mach_arch_desc(14, 0), Some("sparc"));
    assert_eq!(mach_arch_desc(15, 0), Some("i860"));
    assert_eq!(mach_arch_desc(0xffffffff, 0), Some("little"));
    assert_eq!(mach_arch_desc(0xffffffff, 1), Some("big"));
    // The subtype is looked at without its top bit, so it is never all ones.
    assert_eq!(mach_arch_desc(0xffffffff, 0xffffffff), None);
    assert_eq!(mach_arch_desc(0x0100000c, 2), None);
    assert_eq!(mach_arch_desc(0, 0), None);
}

#[test]
fn image_descriptions() {
    assert_eq!(image(0x0100000c, 0, 2).desc(), b"Mach-O executable/arm64".to_vec());
    assert_eq!(image(0x01000007, 3, 1).desc(), b"Mach-O object/x86_64".to_vec());
    assert_eq!(image(12, 9, 4).desc(), b"Mach-O core/armv7".to_vec());
    assert_eq!(image(12, 9, 6).desc(), b"Mach-O dylib/armv7".to_vec());
    assert_eq!(image(12, 9, 7).desc(), b"Mach-O dylinker/armv7".to_vec());
    assert_eq!(image(12, 9, 8).desc(), b"Mach-O bundle/armv7".to_vec());
    assert_eq!(image(12, 9, 10).desc(), b"Mach-O dSYM/armv7".to_vec());
    assert_eq!(image(12, 9, 11).desc(), b"Mach-O kext/armv7".to_vec());
    assert_eq!(image(12, 9, 3).desc(), b"Mach-O <unknown filetype>/armv7".to_vec());
    assert_eq!(image(99, 7, 2).desc(), b"Mach-O executable/<unknown cpu 99/7>".to_vec());
    assert_eq!(
        image(0xfffffffe, 0x80000000, 0).desc(),
        b"Mach-O <unknown filetype>/<unknown cpu -2/-2147483648>".to_vec()
    );
    assert_eq!(image(0x0100000c, 0, 2).subtype_desc(), Some("arm64"));
    assert_eq!(image(99, 7, 2).subtype_desc(), None);
}

#[test]
fn decimal_numbers() {
    let mut v = b"n=".to_vec();
    push_decimal(&mut v, 0);
    assert_eq!(v, b"n=0".to_vec());
    let mut v = Vec::new();
    push_decimal(&mut v, 9);
    push_decimal(&mut v, 10);
    push_decimal(&mut v, 1234567890);
    push_decimal(&mut v, u64::MAX);
    assert_eq!(v, b"910123456789018446744073709551615".to_vec());
    let mut v = Vec::new();
    push_decimal_i32(&mut v, 0);
    push_decimal_i32(&mut v, 0x7fffffff);
    push_decimal_i32(&mut v, 0xffffffff);
    assert_eq!(v, b"02147483647-1".to_vec());
}

#[test]
fn library_descriptions() {
    let mut m = image(12, 9, 2);
    let kinds = [LoadDylibKind::Normal, LoadDylibKind::Weak, LoadDylibKind::Reexport, LoadDylibKind::Upward];
    for k in kinds.iter() {
        m.load_dylib.push(LoadDylib {
            path: b"/usr/lib/libc.dylib".to_vec(),
            kind: *k,
            timestamp: 2,
            current_version: PackedVersion(0x04cf0a03),
            compatibility_version: PackedVersion(0x00010000),
        });
    }
    let deps = m.get_dep_libs();
    assert_eq!(deps.len(), 4);
    assert_eq!(m.describe_dep_lib(&deps[0]), b"/usr/lib/libc.dylib timestamp=2 cur=1231.10.3 compat=1.0.0".to_vec());
    assert_eq!(m.describe_dep_lib(&deps[1]), b"/usr/lib/libc.dylib [weak] timestamp=2 cur=1231.10.3 compat=1.0.0".to_vec());
    assert_eq!(m.describe_dep_lib(&deps[2]), b"/usr/lib/libc.dylib [reexport] timestamp=2 cur=1231.10.3 compat=1.0.0".to_vec());
    assert_eq!(
        m.describe_dep_lib(&DepLib { path: Vec::new(), private: 3 }),
        b"/usr/lib/libc.dylib [upward] timestamp=2 cur=1231.10.3 compat=1.0.0".to_vec()
    );
    m.load_dylib[0].path = vec![0xff, 0x00, b'a'];
    m.load_dylib[0].timestamp = u32::MAX;
    m.load_dylib[0].current_version = PackedVersion(0xffffffff);
    m.load_dylib[0].compatibility_version = PackedVersion(0);
    assert_eq!(
        m.describe_dep_lib(&deps[0]),
        [&[0xffu8, 0x00, b'a'][..], &b" timestamp=4294967295 cur=65535.255.255 compat=0.0.0"[..]].concat()
    );
}
