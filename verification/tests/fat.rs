use macho::diag::Warning;
use macho::exec::{Arch, ProbeResult};
use macho::fat::{FatArch, FatMachOProber, MachOProber, SliceChoice};
use macho::image::MachOError;

fn fat(entries: &[(u32, u32, u32, u32)], total: usize) -> Vec<u8> {
    let mut v = vec![0xca, 0xfe, 0xba, 0xbe];
    v.extend_from_slice(&(entries.len() as u32).to_be_bytes());
    for (cputype, cpusubtype, offset, size) in entries.iter() {
        v.extend_from_slice(&cputype.to_be_bytes());
        v.extend_from_slice(&cpusubtype.to_be_bytes());
        v.extend_from_slice(&offset.to_be_bytes());
        v.extend_from_slice(&size.to_be_bytes());
        v.extend_from_slice(&12u32.to_be_bytes());
    }
    v.resize(total, 0);
    for i in (8 + 20 * entries.len()).max(0x40)..total {
        v[i] = i as u8;
    }
    v
}

const X86_64: (u32, u32) = (0x01000007, 3);
const ARM64: (u32, u32) = (0x0100000c, 0);

#[test]
fn slice_for_arm64_is_found_wherever_it_stands() {
    let p = FatMachOProber;
    let a = fat(&[(X86_64.0, X86_64.1, 0x40, 0x20), (ARM64.0, ARM64.1, 0x60, 0x30)], 0x90);
    let b = fat(&[(ARM64.0, ARM64.1, 0x60, 0x30), (X86_64.0, X86_64.1, 0x40, 0x20)], 0x90);
    let mut w = Vec::new();
    let choice = SliceChoice::Arch(b"arm64".to_vec());
    assert_eq!(p.create(&a, &choice, &mut w), Ok(a[0x60..0x90].to_vec()));
    assert_eq!(p.create(&b, &choice, &mut w), Ok(b[0x60..0x90].to_vec()));
    let choice = SliceChoice::Arch(b"x86_64".to_vec());
    assert_eq!(p.create(&a, &choice, &mut w), Ok(a[0x40..0x60].to_vec()));
    assert_eq!(p.create(&b, &choice, &mut w), Ok(b[0x40..0x60].to_vec()));
    assert_eq!(p.create(&a, &SliceChoice::Index(0), &mut w), Ok(a[0x40..0x60].to_vec()));
    assert_eq!(p.create(&b, &SliceChoice::Index(0), &mut w), Ok(b[0x60..0x90].to_vec()));
    assert_eq!(p.create(&b, &SliceChoice::Index(1), &mut w), Ok(b[0x40..0x60].to_vec()));
    assert!(w.is_empty());
    assert_eq!(p.name(), "fat");
}

#[test]
fn of_two_slices_of_one_architecture_the_first_is_taken() {
    let p = FatMachOProber;
    // The flag bit of the subtype does not count.
    let a = fat(&[(ARM64.0, 0x80000000, 0x50, 0x10), (ARM64.0, 0, 0x60, 0x10)], 0x70);
    let mut w = Vec::new();
    assert_eq!(p.create(&a, &SliceChoice::Arch(b"arm64".to_vec()), &mut w), Ok(a[0x50..0x60].to_vec()));
}

#[test]
fn fat_errors() {
    let p = FatMachOProber;
    let a = fat(&[(X86_64.0, X86_64.1, 0x40, 0x20)], 0x60);
    let mut w = Vec::new();
    assert_eq!(p.create(&a, &SliceChoice::Arch(b"arm64".to_vec()), &mut w), Err(MachOError::NoMatchingArch));
    assert_eq!(p.create(&a, &SliceChoice::Index(1), &mut w), Err(MachOError::NoMatchingArch));
    assert_eq!(p.create(&a[..7], &SliceChoice::Index(0), &mut w), Err(MachOError::InvalidFat));
    let mut not_fat = a.clone();
    not_fat[3] = 0xbf;
    assert_eq!(p.create(&not_fat, &SliceChoice::Index(0), &mut w), Err(MachOError::InvalidFat));
    assert!(w.is_empty());
    assert_eq!(p.create(&a[..27], &SliceChoice::Index(0), &mut w), Err(MachOError::InvalidFat));
    assert_eq!(w, vec![Warning::FatNoRoom]);
    let huge = fat(&[], 8);
    let mut huge = huge;
    huge[4..8].copy_from_slice(&0xffff_ffffu32.to_be_bytes());
    let mut w = Vec::new();
    assert_eq!(p.probe_cb(&huge, &mut w), None);
    assert_eq!(w, vec![Warning::FatNoRoom]);
    assert_eq!(MachOError::InvalidFat.message(), "invalid fat mach-o");
    assert_eq!(MachOError::NoMatchingArch.message(), "no fat arch matched the arguments specified");
}

#[test]
fn slices_that_run_off_the_file_are_skipped() {
    let p = FatMachOProber;
    let mut a = fat(
        &[(X86_64.0, X86_64.1, 0x60, 0x20), (ARM64.0, ARM64.1, 0x60, 0x31), (12, 9, 0x90, 0), (7, 3, 0xffff_ffff, 0xffff_ffff)],
        0x58,
    );
    a.resize(0x90, 0x11);
    let mut w = Vec::new();
    let entries = p.probe_cb(&a, &mut w).unwrap();
    assert_eq!(w, vec![Warning::FatArchTruncated, Warning::FatArchTruncated]);
    assert_eq!(
        entries,
        vec![
            (0, FatArch { cputype: X86_64.0, cpusubtype: X86_64.1, offset: 0x60, size: 0x20, align: 12 }),
            (2, FatArch { cputype: 12, cpusubtype: 9, offset: 0x90, size: 0, align: 12 }),
        ]
    );
    let mut w = Vec::new();
    assert_eq!(p.create(&a, &SliceChoice::Arch(b"arm64".to_vec()), &mut w), Err(MachOError::NoMatchingArch));
    assert_eq!(p.create(&a, &SliceChoice::Index(1), &mut w), Err(MachOError::NoMatchingArch));
    assert_eq!(p.create(&a, &SliceChoice::Index(2), &mut w), Ok(vec![]));
    assert_eq!(p.create(&a, &SliceChoice::Arch(b"armv7".to_vec()), &mut w), Ok(vec![]));
}

#[test]
fn probe_results_are_wrapped_for_a_slice() {
    let p = FatMachOProber;
    let fa = FatArch { cputype: ARM64.0, cpusubtype: ARM64.1, offset: 0, size: 0, align: 0 };
    let inner = ProbeResult {
        desc: b"Mach-O executable/arm64".to_vec(),
        arch: Arch::AArch64,
        likely: true,
        cmd: vec![b"macho".to_vec()],
    };
    let r = p.probe(3, &fa, &inner);
    assert_eq!(r.desc, b"(slice #3) Mach-O executable/arm64".to_vec());
    assert_eq!(r.arch, Arch::AArch64);
    assert!(r.likely);
    assert_eq!(r.cmd, vec![b"fat".to_vec(), b"--arch".to_vec(), b"arm64".to_vec(), b"macho".to_vec()]);
    let unknown = FatArch { cputype: 99, cpusubtype: 1, offset: 0, size: 0, align: 0 };
    let r = p.probe(12, &unknown, &inner);
    assert_eq!(r.cmd[2], b"12".to_vec());
    assert_eq!(p.slice_name(0, &unknown), b"0".to_vec());
    assert_eq!(p.slice_name(0, &fa), b"arm64".to_vec());
}

#[test]
fn single_image_prober() {
    let p = MachOProber;
    assert_eq!(p.name(), "macho");
    let mut img = vec![0xcf, 0xfa, 0xed, 0xfe];
    for f in [0x0100000cu32, 0, 2, 5, 100, 0].iter() {
        img.extend_from_slice(&f.to_le_bytes());
    }
    let r = p.probe(img.clone());
    assert_eq!(r.len(), 1);
    assert_eq!(r[0].desc, b"Mach-O executable/arm64".to_vec());
    assert_eq!(r[0].arch, Arch::AArch64);
    assert!(r[0].likely);
    assert_eq!(r[0].cmd, vec![b"macho".to_vec()]);
    assert!(p.probe(vec![1, 2, 3, 4]).is_empty());
    assert!(p.probe(vec![0u8; 100]).is_empty());
    let mut w = Vec::new();
    // The commands that the header declares are not there.
    let m = p.create(img, &mut w).unwrap();
    assert_eq!(w, vec![Warning::LoadCommandsTruncated]);
    assert_eq!(m.mh.ncmds, 5);
    assert_eq!(p.create(vec![0u8; 100], &mut w).err(), Some(MachOError::BadMagic));
}
