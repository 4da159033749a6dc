//! The walk over an image's load commands: segments and sections, the
//! link-edit regions, and the libraries asked for.

use vstd::prelude::*;
use crate::defs::{
    CPU_TYPE_ARM, CPU_TYPE_ARM64, CPU_TYPE_POWERPC, CPU_TYPE_POWERPC64, CPU_TYPE_X86,
    CPU_TYPE_X86_64, DYLIB_COMMAND_SIZE, LC_CODE_SIGNATURE, LC_DATA_IN_CODE, LC_DYLD_INFO,
    LC_DYLD_INFO_ONLY, LC_DYLIB_CODE_SIGN_DRS, LC_DYSYMTAB, LC_FUNCTION_STARTS,
    LC_LINKER_OPTIMIZATION_HINT, LC_LOAD_DYLIB, LC_LOAD_UPWARD_DYLIB, LC_LOAD_WEAK_DYLIB,
    LC_REEXPORT_DYLIB, LC_SEGMENT, LC_SEGMENT_64, LC_SEGMENT_SPLIT_INFO, LC_SYMTAB,
    LOAD_COMMAND_SIZE, MACH_HEADER_SIZE, MH_CIGAM, MH_CIGAM_64, MH_MAGIC, MH_MAGIC_64,
    SECTION_64_SIZE, SECTION_SIZE, SEGMENT_COMMAND_64_SIZE, SEGMENT_COMMAND_SIZE,
    VM_PROT_EXECUTE, VM_PROT_READ, VM_PROT_WRITE,
};
use crate::diag::Warning;
use crate::exec::{Prot, Segment, SegmentView, segment_views};
use crate::exec::{Arch, ExecBase};
use crate::image::{
    LinkeditBit, LoadDylib, LoadDylibKind, LoadDylibView, MachHeader, MachO, MachOError,
    MachOView, NUM_LINKEDIT, PackedVersion, SYMTAB, arch_of_cputype, bytes_views,
    lemma_linkedit_bits, linkedit_bits, load_dylib_views, magic_kind, make_linkedit_bits,
};
use crate::util::{
    Endian, copy_range, cstr_at, cstr_terminated, find_nul, get_u32, get_u64, read_u32,
    read_u64, slice_of,
};

verus! {

/// The protection that the low three bits of `ip` stand for.
pub open spec fn prot_of(ip: u32) -> Prot {
    Prot {
        r: ip & VM_PROT_READ != 0,
        w: ip & VM_PROT_WRITE != 0,
        x: ip & VM_PROT_EXECUTE != 0,
    }
}

pub fn u32_to_prot(ip: u32) -> (r: Prot)
    ensures
        r == prot_of(ip),
{
    Prot {
        r: (ip & VM_PROT_READ) != 0,
        w: (ip & VM_PROT_WRITE) != 0,
        x: (ip & VM_PROT_EXECUTE) != 0,
    }
}

/// A segment after the overflow rule: in a 64-bit image a size that would
/// carry its range past 64 bits is cut to what is left; in a 32-bit image
/// nothing changes.
pub open spec fn fixed_segment(s: SegmentView, sixtyfour: bool) -> SegmentView {
    if sixtyfour {
        SegmentView {
            vmsize: if s.vmaddr + s.vmsize > u64::MAX {
                (u64::MAX - s.vmaddr) as u64
            } else {
                s.vmsize
            },
            filesize: if s.fileoff + s.filesize > u64::MAX {
                (u64::MAX - s.fileoff) as u64
            } else {
                s.filesize
            },
            ..s
        }
    } else {
        s
    }
}

/// The warnings that the overflow rule gives for a segment.
pub open spec fn overflow_warnings(s: SegmentView, sixtyfour: bool) -> Seq<Warning> {
    let limit: int = if sixtyfour {
        u64::MAX as int
    } else {
        u32::MAX as int
    };
    let vm: Seq<Warning> = if s.vmaddr + s.vmsize > limit {
        seq![
            if sixtyfour {
                Warning::VmOverflow
            } else {
                Warning::VmOverflow32
            },
        ]
    } else {
        seq![]
    };
    let file: Seq<Warning> = if s.fileoff + s.filesize > limit {
        seq![
            if sixtyfour {
                Warning::FileOverflow
            } else {
                Warning::FileOverflow32
            },
        ]
    } else {
        seq![]
    };
    vm + file
}

/// Applies the overflow rule to a segment or section.
pub fn fixup_segment_overflow(seg: &mut Segment, sixtyfour: bool, warnings: &mut Vec<Warning>)
    ensures
        final(seg)@ == fixed_segment(old(seg)@, sixtyfour),
        final(warnings)@ == old(warnings)@ + overflow_warnings(old(seg)@, sixtyfour),
        sixtyfour ==> final(seg).vmaddr + final(seg).vmsize <= u64::MAX && final(seg).fileoff
            + final(seg).filesize <= u64::MAX,
        sixtyfour && old(seg).vmaddr + old(seg).vmsize > u64::MAX ==> final(seg).vmaddr + final(seg).vmsize == u64::MAX && final(warnings)@.contains(Warning::VmOverflow),
        !sixtyfour ==> *final(seg) == *old(seg),
        !sixtyfour && old(seg).vmaddr + old(seg).vmsize > u32::MAX ==> final(warnings)@.contains(Warning::VmOverflow32),
{
    let ghost w0 = warnings@;
    if sixtyfour {
        if seg.vmsize > u64::MAX - seg.vmaddr {
            warnings.push(Warning::VmOverflow);
            seg.vmsize = u64::MAX - seg.vmaddr;
        }
        let ghost w1 = warnings@;
        if seg.filesize > u64::MAX - seg.fileoff {
            warnings.push(Warning::FileOverflow);
            seg.filesize = u64::MAX - seg.fileoff;
        }
        assert(warnings@ =~= w0 + overflow_warnings(old(seg)@, sixtyfour));
        assert(old(seg).vmaddr + old(seg).vmsize > u64::MAX ==> w1[w0.len() as int]
            == Warning::VmOverflow && warnings@[w0.len() as int] == Warning::VmOverflow);
    } else {
        if seg.vmaddr > 0xffff_ffff || seg.vmsize > 0xffff_ffff - seg.vmaddr {
            warnings.push(Warning::VmOverflow32);
        }
        if seg.fileoff > 0xffff_ffff || seg.filesize > 0xffff_ffff - seg.fileoff {
            warnings.push(Warning::FileOverflow32);
        }
        assert(warnings@ =~= w0 + overflow_warnings(old(seg)@, sixtyfour));
        assert(old(seg).vmaddr + old(seg).vmsize > u32::MAX ==> warnings@[w0.len() as int]
            == Warning::VmOverflow32);
    }
}

/// The pointer-sized value at `off`: 8 bytes in a wide record, 4 in a narrow
/// one.
pub open spec fn get_word(buf: Seq<u8>, off: int, wide: bool, end: Endian) -> u64 {
    if wide {
        get_u64(buf, off, end)
    } else {
        get_u32(buf, off, end) as u64
    }
}

pub fn read_word(buf: &[u8], off: usize, wide: bool, end: Endian) -> (r: u64)
    requires
        off + 8 <= buf@.len(),
    ensures
        r == get_word(buf@, off as int, wide, end),
{
    if wide {
        read_u64(buf, off, end)
    } else {
        read_u32(buf, off, end) as u64
    }
}

/// The size of the fixed part of a segment command.
pub open spec fn segment_command_size(wide: bool) -> usize {
    if wide {
        SEGMENT_COMMAND_64_SIZE
    } else {
        SEGMENT_COMMAND_SIZE
    }
}

/// The size of one section record.
pub open spec fn section_size(wide: bool) -> usize {
    if wide {
        SECTION_64_SIZE
    } else {
        SECTION_SIZE
    }
}

/// The name in a 16-byte field: the bytes before the first NUL.
pub open spec fn name16(buf: Seq<u8>, off: int) -> Seq<u8> {
    cstr_at(buf.subrange(off, off + 16), 0)
}

/// The segment that a segment command describes, before the overflow rule.
pub open spec fn segment_of_command(
    end: Endian,
    hdr_offset: usize,
    whole: Seq<u8>,
    lc: Seq<u8>,
    wide: bool,
    lci: usize,
) -> SegmentView {
    let w: int = if wide {
        8
    } else {
        4
    };
    let fileoff = get_word(lc, 24 + 2 * w, wide, end);
    let filesize = get_word(lc, 24 + 3 * w, wide, end);
    SegmentView {
        vmaddr: get_word(lc, 24, wide, end),
        vmsize: get_word(lc, 24 + w, wide, end),
        fileoff: if fileoff == 0 {
            hdr_offset as u64
        } else {
            fileoff
        },
        filesize,
        name: Some(name16(lc, 8)),
        prot: prot_of(get_u32(lc, 24 + 4 * w + 4, end)),
        data: slice_of(whole, fileoff as int, fileoff + filesize),
        seg_idx: None,
        private: Some(lci),
    }
}

/// The section that the record at `off` describes, before the overflow rule.
pub open spec fn section_of_command(
    end: Endian,
    hdr_offset: usize,
    lc: Seq<u8>,
    off: int,
    wide: bool,
    prot: Prot,
    segi: usize,
    secti: usize,
) -> SegmentView {
    let w: int = if wide {
        8
    } else {
        4
    };
    let size = get_word(lc, off + 32 + w, wide, end);
    let offset = get_u32(lc, off + 32 + 2 * w, end);
    SegmentView {
        vmaddr: get_word(lc, off + 32, wide, end),
        vmsize: size,
        fileoff: if offset == 0 {
            hdr_offset as u64
        } else {
            offset as u64
        },
        filesize: if offset != 0 {
            size
        } else {
            0
        },
        name: Some(name16(lc, off)),
        prot,
        data: None,
        seg_idx: Some(segi),
        private: Some(secti),
    }
}

/// The sections of a segment command from the `secti`-th on, added to
/// `sections`, with their warnings added to `warnings`. Reading stops with a
/// warning where the command ends before a section does.
pub open spec fn sections_from(
    end: Endian,
    hdr_offset: usize,
    lc: Seq<u8>,
    wide: bool,
    prot: Prot,
    segi: usize,
    nsects: u32,
    secti: int,
    sections: Seq<SegmentView>,
    warnings: Seq<Warning>,
) -> (Seq<SegmentView>, Seq<Warning>)
    decreases nsects - secti,
{
    let off = segment_command_size(wide) + secti * section_size(wide);
    if secti < 0 || secti >= nsects {
        (sections, warnings)
    } else if off + section_size(wide) > lc.len() {
        (sections, warnings.push(Warning::SectionsTruncated))
    } else {
        let s = section_of_command(end, hdr_offset, lc, off, wide, prot, segi, secti as usize);
        sections_from(
            end,
            hdr_offset,
            lc,
            wide,
            prot,
            segi,
            nsects,
            secti + 1,
            sections.push(fixed_segment(s, wide)),
            warnings + overflow_warnings(s, wide),
        )
    }
}

/// The lists after a segment command: its segment and sections are added,
/// unless the command is too short for its fixed part.
pub open spec fn segment_applied(
    end: Endian,
    hdr_offset: usize,
    whole: Seq<u8>,
    lc: Seq<u8>,
    wide: bool,
    lci: usize,
    segments: Seq<SegmentView>,
    sections: Seq<SegmentView>,
    warnings: Seq<Warning>,
) -> (Seq<SegmentView>, Seq<SegmentView>, Seq<Warning>) {
    if lc.len() < segment_command_size(wide) {
        (segments, sections, warnings.push(Warning::SegmentCommandTooSmall))
    } else {
        let seg = segment_of_command(end, hdr_offset, whole, lc, wide, lci);
        let w: int = if wide {
            8
        } else {
            4
        };
        let rest = sections_from(
            end,
            hdr_offset,
            lc,
            wide,
            seg.prot,
            segments.len() as usize,
            get_u32(lc, 24 + 4 * w + 8, end),
            0,
            sections,
            warnings + overflow_warnings(seg, wide),
        );
        (segments.push(fixed_segment(seg, wide)), rest.0, rest.1)
    }
}

proof fn lemma_views_push(s: Seq<Segment>, x: Segment)
    ensures
        segment_views(s.push(x)) == segment_views(s).push(x@),
{
    assert(segment_views(s.push(x)) =~= segment_views(s).push(x@));
}

fn read_name16(buf: &[u8], off: usize) -> (r: Vec<u8>)
    requires
        off + 16 <= buf@.len(),
    ensures
        r@ == name16(buf@, off as int),
{
    assert(buf@.len() == buf.len());
    let field = vstd::slice::slice_subrange(buf, off, off + 16);
    let n = find_nul(field, 0);
    copy_range(field, 0, n)
}

/// Reads a segment command: adds its segment to `segs` and its sections to
/// `sects`.
#[verifier::rlimit(50)]
pub fn do_segment(
    lc_buf: &[u8],
    whole: &[u8],
    wide: bool,
    end: Endian,
    hdr_offset: usize,
    lci: usize,
    segs: &mut Vec<Segment>,
    sects: &mut Vec<Segment>,
    warnings: &mut Vec<Warning>,
)
    ensures
        (segment_views(final(segs)@), segment_views(final(sects)@), final(warnings)@)
            == segment_applied(
            end,
            hdr_offset,
            whole@,
            lc_buf@,
            wide,
            lci,
            segment_views(old(segs)@),
            segment_views(old(sects)@),
            old(warnings)@,
        ),
{
    let sc_size: usize = if wide {
        SEGMENT_COMMAND_64_SIZE
    } else {
        SEGMENT_COMMAND_SIZE
    };
    let sect_size: usize = if wide {
        SECTION_64_SIZE
    } else {
        SECTION_SIZE
    };
    let w: usize = if wide {
        8
    } else {
        4
    };
    assert(lc_buf@.len() == lc_buf.len());
    assert(whole@.len() == whole.len());
    if lc_buf.len() < sc_size {
        warnings.push(Warning::SegmentCommandTooSmall);
        return ;
    }
    let vmaddr = read_word(lc_buf, 24, wide, end);
    let vmsize = read_word(lc_buf, 24 + w, wide, end);
    let fileoff = read_word(lc_buf, 24 + 2 * w, wide, end);
    let filesize = read_word(lc_buf, 24 + 3 * w, wide, end);
    let segprot = u32_to_prot(read_u32(lc_buf, 24 + 4 * w + 4, end));
    let nsects = read_u32(lc_buf, 24 + 4 * w + 8, end);
    let whole_len = whole.len() as u64;
    let data: Option<Vec<u8>> = if fileoff <= whole_len && filesize <= whole_len - fileoff {
        Some(copy_range(whole, fileoff as usize, (fileoff + filesize) as usize))
    } else {
        None
    };
    let mut seg = Segment {
        vmaddr,
        vmsize,
        fileoff: if fileoff == 0 {
            hdr_offset as u64
        } else {
            fileoff
        },
        filesize,
        name: Some(read_name16(lc_buf, 8)),
        prot: segprot,
        data,
        seg_idx: None,
        private: Some(lci),
    };
    assert(seg@ == segment_of_command(end, hdr_offset, whole@, lc_buf@, wide, lci));
    let segi = segs.len();
    fixup_segment_overflow(&mut seg, wide, warnings);
    proof {
        lemma_views_push(segs@, seg);
    }
    segs.push(seg);
    let mut secti: u32 = 0;
    let mut off: usize = sc_size;
    let ghost target = sections_from(
        end,
        hdr_offset,
        lc_buf@,
        wide,
        segprot,
        segi,
        nsects,
        0,
        segment_views(old(sects)@),
        warnings@,
    );
    while secti < nsects
        invariant_except_break
            secti <= nsects,
            off == sc_size + secti * sect_size,
            off <= lc_buf@.len(),
            sections_from(
                end,
            hdr_offset,
                lc_buf@,
                wide,
                segprot,
                segi,
                nsects,
                secti as int,
                segment_views(sects@),
                warnings@,
            ) == target,
        invariant
            lc_buf@.len() == lc_buf.len(),
            sc_size == segment_command_size(wide),
            sect_size == section_size(wide),
            w == (if wide {
                8int
            } else {
                4int
            }),
        ensures
            (segment_views(sects@), warnings@) == target,
        decreases nsects - secti,
    {
        if lc_buf.len() - off < sect_size {
            warnings.push(Warning::SectionsTruncated);
            break ;
        }
        let size = read_word(lc_buf, off + 32 + w, wide, end);
        let offset = read_u32(lc_buf, off + 32 + 2 * w, end);
        let mut sect = Segment {
            vmaddr: read_word(lc_buf, off + 32, wide, end),
            vmsize: size,
            fileoff: if offset == 0 {
                hdr_offset as u64
            } else {
                offset as u64
            },
            filesize: if offset != 0 {
                size
            } else {
                0
            },
            name: Some(read_name16(lc_buf, off)),
            prot: segprot,
            data: None,
            seg_idx: Some(segi),
            private: Some(secti as usize),
        };
        assert(sect@ == section_of_command(
            end,
            hdr_offset,
            lc_buf@,
            off as int,
            wide,
            segprot,
            segi,
            secti as usize,
        ));
        fixup_segment_overflow(&mut sect, wide, warnings);
        proof {
            lemma_views_push(sects@, sect);
        }
        sects.push(sect);
        assert((secti + 1) * sect_size == secti * sect_size + sect_size) by (nonlinear_arith);
        off += sect_size;
        secti += 1;
    }
}

/// The part of `src` that a region spans, with the warning it earned: a
/// region that starts past the end is emptied, and one that runs past the end
/// is cut to whole elements.
pub open spec fn file_region(src: Seq<u8>, off: u64, count: u64, elm_size: usize) -> (
    Seq<u8>,
    Seq<Warning>,
)
    recommends
        elm_size > 0,
{
    if off > src.len() {
        (Seq::empty(), seq![Warning::RegionStartsPastEnd])
    } else if count > (src.len() - off) / (elm_size as int) {
        (
            src.subrange(
                off as int,
                off + ((src.len() - off) / (elm_size as int)) * elm_size,
            ),
            seq![Warning::RegionTruncated],
        )
    } else {
        (src.subrange(off as int, off + count * elm_size), seq![])
    }
}

/// What a region holds always lies within its source and is a whole number
/// of elements.
#[verifier::rlimit(50)]
pub proof fn lemma_file_region(src: Seq<u8>, off: u64, count: u64, elm_size: usize)
    requires
        elm_size > 0,
    ensures
        (file_region(src, off, count, elm_size).0.len() as int) % (elm_size as int) == 0,
        file_region(src, off, count, elm_size).0.len() <= src.len(),
        file_region(src, off, count, elm_size).0.len() <= count * elm_size,
{
    let e = elm_size as int;
    if off > src.len() {
        assert(0int % e == 0);
        assert(count * elm_size >= 0) by (nonlinear_arith)
            requires
                count >= 0,
                elm_size > 0,
        ;
    } else {
        let room = src.len() - off;
        let n: int = if count > room / e {
            room / e
        } else {
            count as int
        };
        vstd::arithmetic::mul::lemma_mul_inequality(n, room / e, e);
        vstd::arithmetic::mul::lemma_mul_inequality(n, count as int, e);
        vstd::arithmetic::div_mod::lemma_fundamental_div_mod(room, e);
        vstd::arithmetic::mul::lemma_mul_is_commutative(e, room / e);
        vstd::arithmetic::div_mod::lemma_mod_multiples_basic(n, e);
    }
}

#[verifier::rlimit(50)]
pub fn file_array_64(
    buf: &[u8],
    off: u64,
    count: u64,
    elm_size: usize,
    warnings: &mut Vec<Warning>,
) -> (r: Vec<u8>)
    requires
        0 < elm_size,
    ensures
        r@ == file_region(buf@, off, count, elm_size).0,
        final(warnings)@ == old(warnings)@ + file_region(buf@, off, count, elm_size).1,
{
    assert(buf@.len() == buf.len());
    let buf_len = buf.len() as u64;
    let elm = elm_size as u64;
    if off > buf_len {
        warnings.push(Warning::RegionStartsPastEnd);
        assert(warnings@ =~= old(warnings)@ + seq![Warning::RegionStartsPastEnd]);
        return Vec::new();
    }
    let room = (buf_len - off) / elm;
    let n = if count > room {
        warnings.push(Warning::RegionTruncated);
        assert(warnings@ =~= old(warnings)@ + seq![Warning::RegionTruncated]);
        room
    } else {
        assert(warnings@ =~= old(warnings)@ + Seq::<Warning>::empty());
        count
    };
    proof {
        let e = elm as int;
        let room_bytes = buf_len - off;
        vstd::arithmetic::mul::lemma_mul_inequality(n as int, room_bytes / e, e);
        vstd::arithmetic::div_mod::lemma_fundamental_div_mod(room_bytes, e);
        vstd::arithmetic::mul::lemma_mul_is_commutative(e, room_bytes / e);
    }
    copy_range(buf, off as usize, (off + n * elm) as usize)
}

pub fn file_array(buf: &[u8], off: u32, count: u32, elm_size: usize, warnings: &mut Vec<Warning>) -> (r:
    Vec<u8>)
    requires
        0 < elm_size,
    ensures
        r@ == file_region(buf@, off as u64, count as u64, elm_size).0,
        final(warnings)@ == old(warnings)@ + file_region(buf@, off as u64, count as u64, elm_size).1,
{
    file_array_64(buf, off as u64, count as u64, elm_size, warnings)
}

/// Whether a command of kind `cmd` describes the region of `b`.
pub open spec fn bit_matches(cmd: u32, b: LinkeditBit) -> bool {
    cmd == b.cmd_id || (cmd == LC_DYLD_INFO_ONLY && b.cmd_id == LC_DYLD_INFO)
}

/// The regions after the registry's entries from the `i`-th on were matched
/// against a command. A symbol sub-range is cut out of the symbol table, and
/// its offset counts records; every other region is cut out of the file.
pub open spec fn regions_from(
    is64: bool,
    end: Endian,
    whole: Seq<u8>,
    lc: Seq<u8>,
    cmd: u32,
    i: int,
    regions: Seq<Seq<u8>>,
    warnings: Seq<Warning>,
) -> (Seq<Seq<u8>>, Seq<Warning>)
    decreases NUM_LINKEDIT - i,
{
    if i < 0 || i >= NUM_LINKEDIT {
        (regions, warnings)
    } else {
        let b = linkedit_bits(is64)[i];
        if !bit_matches(cmd, b) {
            regions_from(is64, end, whole, lc, cmd, i + 1, regions, warnings)
        } else if b.cmd_off_field_off + 4 > lc.len() || b.cmd_count_field_off + 4 > lc.len() {
            regions_from(
                is64,
                end,
                whole,
                lc,
                cmd,
                i + 1,
                regions,
                warnings.push(Warning::LinkeditCommandTooSmall),
            )
        } else {
            let off = get_u32(lc, b.cmd_off_field_off as int, end);
            let count = get_u32(lc, b.cmd_count_field_off as int, end);
            let r = if b.is_symtab {
                file_region(
                    regions[SYMTAB as int],
                    (off * b.elm_size) as u64,
                    count as u64,
                    b.elm_size,
                )
            } else {
                file_region(whole, off as u64, count as u64, b.elm_size)
            };
            regions_from(
                is64,
                end,
                whole,
                lc,
                cmd,
                i + 1,
                regions.update(i, r.0),
                warnings + r.1,
            )
        }
    }
}

proof fn lemma_bytes_views_update(s: Seq<Vec<u8>>, i: int, x: Vec<u8>)
    requires
        0 <= i < s.len(),
    ensures
        bytes_views(s.update(i, x)) == bytes_views(s).update(i, x@),
{
    assert(bytes_views(s.update(i, x)) =~= bytes_views(s).update(i, x@));
}

proof fn lemma_bytes_views_push(s: Seq<Vec<u8>>, x: Vec<u8>)
    ensures
        bytes_views(s.push(x)) == bytes_views(s).push(x@),
{
    assert(bytes_views(s.push(x)) =~= bytes_views(s).push(x@));
}

/// Reads the regions that a link-edit command describes.
#[verifier::rlimit(50)]
pub fn do_linkedit(
    lc_buf: &[u8],
    whole: &[u8],
    cmd: u32,
    is64: bool,
    end: Endian,
    regions: &mut Vec<Vec<u8>>,
    warnings: &mut Vec<Warning>,
)
    requires
        old(regions)@.len() == NUM_LINKEDIT,
    ensures
        final(regions)@.len() == NUM_LINKEDIT,
        (bytes_views(final(regions)@), final(warnings)@) == regions_from(
            is64,
            end,
            whole@,
            lc_buf@,
            cmd,
            0,
            bytes_views(old(regions)@),
            old(warnings)@,
        ),
{
    let ghost target = regions_from(
        is64,
        end,
        whole@,
        lc_buf@,
        cmd,
        0,
        bytes_views(regions@),
        warnings@,
    );
    let bits = make_linkedit_bits(is64);
    proof {
        lemma_linkedit_bits(is64);
    }
    assert(lc_buf@.len() == lc_buf.len());
    let mut i: usize = 0;
    while i < NUM_LINKEDIT
        invariant
            i <= NUM_LINKEDIT,
            regions@.len() == NUM_LINKEDIT,
            bits@ == linkedit_bits(is64),
            lc_buf@.len() == lc_buf.len(),
            regions_from(
                is64,
                end,
                whole@,
                lc_buf@,
                cmd,
                i as int,
                bytes_views(regions@),
                warnings@,
            )
                == target,
        decreases NUM_LINKEDIT - i,
    {
        proof {
            lemma_linkedit_bits(is64);
        }
        let fb = bits[i];
        if cmd == fb.cmd_id || (cmd == LC_DYLD_INFO_ONLY && fb.cmd_id == LC_DYLD_INFO) {
            if lc_buf.len() < fb.cmd_off_field_off + 4 || lc_buf.len() < fb.cmd_count_field_off
                + 4 {
                warnings.push(Warning::LinkeditCommandTooSmall);
            } else {
                let off = read_u32(lc_buf, fb.cmd_off_field_off, end);
                let count = read_u32(lc_buf, fb.cmd_count_field_off, end);
                let region = if fb.is_symtab {
                    assert(off * fb.elm_size <= u64::MAX) by (nonlinear_arith)
                        requires
                            off <= u32::MAX,
                            fb.elm_size <= 56,
                    ;
                    assert(bytes_views(regions@)[SYMTAB as int] == regions@[SYMTAB as int]@);
                    file_array_64(
                        regions[SYMTAB].as_slice(),
                        off as u64 * fb.elm_size as u64,
                        count as u64,
                        fb.elm_size,
                        warnings,
                    )
                } else {
                    file_array(whole, off, count, fb.elm_size, warnings)
                };
                proof {
                    lemma_bytes_views_update(regions@, i as int, region);
                }
                regions.set(i, region);
            }
        }
        i += 1;
    }
}

/// The kind of library that a load command asks for.
pub open spec fn dylib_kind(cmd: u32) -> LoadDylibKind {
    if cmd == LC_LOAD_WEAK_DYLIB {
        LoadDylibKind::Weak
    } else if cmd == LC_REEXPORT_DYLIB {
        LoadDylibKind::Reexport
    } else if cmd == LC_LOAD_UPWARD_DYLIB {
        LoadDylibKind::Upward
    } else {
        LoadDylibKind::Normal
    }
}

/// The path that stands for one that could not be read.
pub open spec fn bad_path() -> Seq<u8> {
    seq![0x3cu8, 0x65u8, 0x72u8, 0x72u8, 0x3eu8]
}

/// The libraries after a dylib command: the library is added unless the
/// command is too short; a path that cannot be read is replaced.
pub open spec fn dylib_applied(
    end: Endian,
    lc: Seq<u8>,
    cmd: u32,
    libs: Seq<LoadDylibView>,
    warnings: Seq<Warning>,
) -> (Seq<LoadDylibView>, Seq<Warning>) {
    if lc.len() < DYLIB_COMMAND_SIZE {
        (libs, warnings.push(Warning::DylibCommandTooSmall))
    } else {
        let offset = get_u32(lc, 8, end);
        let lib = LoadDylibView {
            path: if offset <= lc.len() {
                cstr_at(lc, offset as int)
            } else {
                bad_path()
            },
            kind: dylib_kind(cmd),
            timestamp: get_u32(lc, 12, end),
            current_version: PackedVersion(get_u32(lc, 16, end)),
            compatibility_version: PackedVersion(get_u32(lc, 20, end)),
        };
        (
            libs.push(lib),
            if offset > lc.len() {
                warnings.push(Warning::DylibNameBadOffset)
            } else if !cstr_terminated(lc, offset as int) {
                warnings.push(Warning::DylibNameRunsOff)
            } else {
                warnings
            },
        )
    }
}

/// Reads a dylib command.
#[verifier::rlimit(50)]
pub fn do_dylib(
    lc_buf: &[u8],
    cmd: u32,
    end: Endian,
    libs: &mut Vec<LoadDylib>,
    warnings: &mut Vec<Warning>,
)
    ensures
        (load_dylib_views(final(libs)@), final(warnings)@) == dylib_applied(
            end,
            lc_buf@,
            cmd,
            load_dylib_views(old(libs)@),
            old(warnings)@,
        ),
{
    assert(lc_buf@.len() == lc_buf.len());
    if lc_buf.len() < DYLIB_COMMAND_SIZE {
        warnings.push(Warning::DylibCommandTooSmall);
        return ;
    }
    let offset = read_u32(lc_buf, 8, end) as usize;
    let path = if offset <= lc_buf.len() {
        let n = find_nul(lc_buf, offset);
        if n == lc_buf.len() {
            warnings.push(Warning::DylibNameRunsOff);
        }
        copy_range(lc_buf, offset, n)
    } else {
        warnings.push(Warning::DylibNameBadOffset);
        let mut p: Vec<u8> = Vec::new();
        p.push(0x3c);
        p.push(0x65);
        p.push(0x72);
        p.push(0x72);
        p.push(0x3e);
        assert(p@ =~= bad_path());
        p
    };
    let kind = if cmd == LC_LOAD_WEAK_DYLIB {
        LoadDylibKind::Weak
    } else if cmd == LC_REEXPORT_DYLIB {
        LoadDylibKind::Reexport
    } else if cmd == LC_LOAD_UPWARD_DYLIB {
        LoadDylibKind::Upward
    } else {
        LoadDylibKind::Normal
    };
    let lib = LoadDylib {
        path,
        kind,
        timestamp: read_u32(lc_buf, 12, end),
        current_version: PackedVersion(read_u32(lc_buf, 16, end)),
        compatibility_version: PackedVersion(read_u32(lc_buf, 20, end)),
    };
    assert(load_dylib_views(libs@.push(lib)) =~= load_dylib_views(libs@).push(lib@));
    libs.push(lib);
}

/// Whether a command of this kind describes link-edit regions.
pub open spec fn is_linkedit_cmd(cmd: u32) -> bool {
    cmd == LC_DYLD_INFO || cmd == LC_DYLD_INFO_ONLY || cmd == LC_SYMTAB || cmd == LC_DYSYMTAB
        || cmd == LC_FUNCTION_STARTS || cmd == LC_DATA_IN_CODE || cmd == LC_DYLIB_CODE_SIGN_DRS
        || cmd == LC_SEGMENT_SPLIT_INFO || cmd == LC_LINKER_OPTIMIZATION_HINT || cmd
        == LC_CODE_SIGNATURE
}

/// Whether a command of this kind asks for a library.
pub open spec fn is_dylib_cmd(cmd: u32) -> bool {
    cmd == LC_LOAD_DYLIB || cmd == LC_LOAD_WEAK_DYLIB || cmd == LC_REEXPORT_DYLIB || cmd
        == LC_LOAD_UPWARD_DYLIB
}

/// What the walk over the load commands builds up.
#[verifier::ext_equal]
pub struct LcState {
    pub segments: Seq<SegmentView>,
    pub sections: Seq<SegmentView>,
    pub linkedit: Seq<Seq<u8>>,
    pub load_dylib: Seq<LoadDylibView>,
    pub load_commands: Seq<Seq<u8>>,
    pub warnings: Seq<Warning>,
}

/// The state after one load command of kind `cmd`, whose bytes are `lc`.
/// A command of an unknown kind is only recorded.
pub open spec fn command_applied(
    is64: bool,
    end: Endian,
    hdr_offset: usize,
    whole: Seq<u8>,
    cmd: u32,
    lc: Seq<u8>,
    lci: usize,
    st: LcState,
) -> LcState {
    let st1 = if cmd == LC_SEGMENT || cmd == LC_SEGMENT_64 {
        let r = segment_applied(
            end,
            hdr_offset,
            whole,
            lc,
            cmd == LC_SEGMENT_64,
            lci,
            st.segments,
            st.sections,
            st.warnings,
        );
        LcState { segments: r.0, sections: r.1, warnings: r.2, ..st }
    } else if is_linkedit_cmd(cmd) {
        let r = regions_from(is64, end, whole, lc, cmd, 0, st.linkedit, st.warnings);
        LcState { linkedit: r.0, warnings: r.1, ..st }
    } else if is_dylib_cmd(cmd) {
        let r = dylib_applied(end, lc, cmd, st.load_dylib, st.warnings);
        LcState { load_dylib: r.0, warnings: r.1, ..st }
    } else {
        st
    };
    LcState { load_commands: st1.load_commands.push(lc), ..st1 }
}

/// The state after the load commands from the `lci`-th on, the first of
/// which starts at `lc_off`. The walk ends early, with a warning, where a
/// command does not lie within the buffer; what was read until then is kept.
pub open spec fn commands_from(
    is64: bool,
    end: Endian,
    hdr_offset: usize,
    whole: Seq<u8>,
    ncmds: u32,
    lc_off: int,
    lci: int,
    st: LcState,
) -> LcState
    decreases ncmds - lci,
{
    if lci < 0 || lci >= ncmds {
        st
    } else if lc_off + LOAD_COMMAND_SIZE > whole.len() {
        LcState { warnings: st.warnings.push(Warning::LoadCommandsTruncated), ..st }
    } else {
        let cmd = get_u32(whole, lc_off, end);
        let cmdsize = get_u32(whole, lc_off + 4, end);
        if lc_off + cmdsize > whole.len() {
            LcState { warnings: st.warnings.push(Warning::LoadCommandTooBig), ..st }
        } else {
            commands_from(
                is64,
                end,
                hdr_offset,
                whole,
                ncmds,
                lc_off + cmdsize,
                lci + 1,
                command_applied(
                    is64,
                    end,
                    hdr_offset,
                    whole,
                    cmd,
                    whole.subrange(lc_off, lc_off + cmdsize),
                    lci as usize,
                    st,
                ),
            )
        }
    }
}

/// The first segment at or after `i` that starts at the header and has
/// bytes in the file.
pub open spec fn base_segment_from(segments: Seq<SegmentView>, hdr_offset: usize, i: int) -> Option<
    int,
>
    decreases segments.len() - i,
{
    if i < 0 || i >= segments.len() {
        None
    } else if segments[i].fileoff == hdr_offset as u64 && segments[i].filesize != 0 {
        Some(i)
    } else {
        base_segment_from(segments, hdr_offset, i + 1)
    }
}

/// `base_segment_from` gives the least index of such a segment.
pub proof fn lemma_base_segment_from(segments: Seq<SegmentView>, hdr_offset: usize, i: int)
    requires
        0 <= i,
    ensures
        match base_segment_from(segments, hdr_offset, i) {
            Some(k) => {
                &&& i <= k < segments.len()
                &&& segments[k].fileoff == hdr_offset as u64
                &&& segments[k].filesize != 0
                &&& forall|j: int|
                    i <= j < k ==> !(segments[j].fileoff == hdr_offset as u64
                        && segments[j].filesize != 0)
            },
            None => forall|j: int|
                i <= j < segments.len() ==> !(segments[j].fileoff == hdr_offset as u64
                    && segments[j].filesize != 0),
        },
    decreases segments.len() - i,
{
    if i < segments.len() && !(segments[i].fileoff == hdr_offset as u64 && segments[i].filesize
        != 0) {
        lemma_base_segment_from(segments, hdr_offset, i + 1);
    }
}

/// The base address for bind and export addresses: the address of the first
/// segment that starts at the header and has bytes in the file. Where there
/// is no such segment the address stays what it was.
pub open spec fn dyld_base_after(
    segments: Seq<SegmentView>,
    hdr_offset: usize,
    before: Option<u64>,
) -> Option<u64> {
    match base_segment_from(segments, hdr_offset, 0) {
        Some(i) => Some(segments[i].vmaddr),
        None => before,
    }
}

/// The part of an image that the walk over the load commands builds up.
pub open spec fn lc_state_of(m: MachOView, warnings: Seq<Warning>) -> LcState {
    LcState {
        segments: m.segments,
        sections: m.sections,
        linkedit: m.linkedit,
        load_dylib: m.load_dylib,
        load_commands: m.load_commands,
        warnings,
    }
}

/// The image and the warnings after its load commands, the first of which
/// starts at `lc_off` in `whole`, were read.
pub open spec fn commands_parsed(m: MachOView, whole: Seq<u8>, lc_off: int, warnings: Seq<Warning>) -> (
    MachOView,
    Seq<Warning>,
) {
    let st = commands_from(
        m.is64,
        m.endian,
        m.hdr_offset,
        whole,
        m.mh.ncmds,
        lc_off,
        0,
        lc_state_of(m, warnings),
    );
    (
        MachOView {
            segments: st.segments,
            sections: st.sections,
            linkedit: st.linkedit,
            load_dylib: st.load_dylib,
            load_commands: st.load_commands,
            dyld_base: dyld_base_after(st.segments, m.hdr_offset, m.dyld_base),
            ..m
        },
        st.warnings,
    )
}

/// The image that a buffer holds at `hdr_offset`, with the warnings its
/// reading gave added to `warnings`; or the reason why there is none: the
/// buffer is too short for a header, or the magic number is none of the four.
/// Without `do_lcs` only the header is read.
pub open spec fn parsed_image(buf: Seq<u8>, do_lcs: bool, hdr_offset: usize, warnings: Seq<Warning>) -> Result<
    (MachOView, Seq<Warning>),
    MachOError,
> {
    if buf.len() < hdr_offset + MACH_HEADER_SIZE {
        Err(MachOError::Truncated)
    } else {
        match magic_kind(get_u32(buf, hdr_offset as int, Endian::BigEndian)) {
            None => Err(MachOError::BadMagic),
            Some((end, is64)) => {
                let mh = MachHeader::decoded(
                    buf.subrange(hdr_offset as int, hdr_offset + MACH_HEADER_SIZE),
                    end,
                );
                let base = MachOView {
                    arch: arch_of_cputype(mh.cputype),
                    endian: end,
                    segments: Seq::empty(),
                    sections: Seq::empty(),
                    whole_buf: Some(buf),
                    is64,
                    mh,
                    hdr_offset,
                    load_commands: Seq::empty(),
                    load_dylib: Seq::empty(),
                    dyld_base: None,
                    linkedit: Seq::new(NUM_LINKEDIT as nat, |i: int| Seq::<u8>::empty()),
                    dsc_tabs: None,
                };
                if do_lcs {
                    Ok(
                        commands_parsed(
                            base,
                            buf,
                            hdr_offset + MACH_HEADER_SIZE + (if is64 {
                                4int
                            } else {
                                0int
                            }),
                            warnings,
                        ),
                    )
                } else {
                    Ok((base, warnings))
                }
            },
        }
    }
}

/// The header of an image that was read, written again in the byte order
/// of the image, is the 28 bytes it was read from: for each of the four magic
/// numbers, whatever else the buffer holds.
pub proof fn lemma_parsed_header_round_trips(
    buf: Seq<u8>,
    do_lcs: bool,
    hdr_offset: usize,
    warnings: Seq<Warning>,
)
    ensures
        match parsed_image(buf, do_lcs, hdr_offset, warnings) {
            Ok((m, _)) => {
                &&& hdr_offset + MACH_HEADER_SIZE <= buf.len()
                &&& magic_kind(get_u32(buf, hdr_offset as int, Endian::BigEndian)) == Some(
                    (m.endian, m.is64),
                )
                &&& m.mh.encoded(m.endian) == buf.subrange(
                    hdr_offset as int,
                    hdr_offset + MACH_HEADER_SIZE,
                )
            },
            Err(_) => true,
        },
{
    if buf.len() >= hdr_offset + MACH_HEADER_SIZE {
        match magic_kind(get_u32(buf, hdr_offset as int, Endian::BigEndian)) {
            Some((end, is64)) => {
                MachHeader::lemma_bytes_round_trip(
                    buf.subrange(hdr_offset as int, hdr_offset + MACH_HEADER_SIZE),
                    end,
                );
            },
            None => {},
        }
    }
}

impl MachO {
    /// Reads the image that `mc` holds at `hdr_offset`.
    #[verifier::rlimit(50)]
    pub fn new(mc: Vec<u8>, do_lcs: bool, hdr_offset: usize, warnings: &mut Vec<Warning>) -> (r:
        Result<MachO, MachOError>)
        ensures
            match parsed_image(mc@, do_lcs, hdr_offset, old(warnings)@) {
                Ok((img, w)) => r is Ok && r->Ok_0@ == img && r->Ok_0.wf() && final(warnings)@
                    == w,
                Err(e) => r == Err::<MachO, MachOError>(e) && final(warnings)@ == old(warnings)@,
            },
    {
        let buf = mc.as_slice();
        assert(buf@.len() == buf.len());
        if hdr_offset > buf.len() || buf.len() - hdr_offset < MACH_HEADER_SIZE {
            return Err(MachOError::Truncated);
        }
        let magic = read_u32(buf, hdr_offset, Endian::BigEndian);
        let (end, is64) = if magic == MH_MAGIC {
            (Endian::BigEndian, false)
        } else if magic == MH_MAGIC_64 {
            (Endian::BigEndian, true)
        } else if magic == MH_CIGAM {
            (Endian::LittleEndian, false)
        } else if magic == MH_CIGAM_64 {
            (Endian::LittleEndian, true)
        } else {
            return Err(MachOError::BadMagic);
        };
        let mh = MachHeader::decode(
            vstd::slice::slice_subrange(buf, hdr_offset, hdr_offset + MACH_HEADER_SIZE),
            end,
        );
        let mut linkedit: Vec<Vec<u8>> = Vec::new();
        let mut i: usize = 0;
        while i < NUM_LINKEDIT
            invariant
                i <= NUM_LINKEDIT,
                linkedit@.len() == i,
                forall|j: int| 0 <= j < i ==> (#[trigger] linkedit@[j])@ == Seq::<u8>::empty(),
            decreases NUM_LINKEDIT - i,
        {
            linkedit.push(Vec::new());
            i += 1;
        }
        let mut me = MachO {
            eb: ExecBase {
                arch: Arch::UnknownArch,
                endian: end,
                segments: Vec::new(),
                sections: Vec::new(),
                whole_buf: None,
            },
            is64,
            mh,
            hdr_offset,
            load_commands: Vec::new(),
            load_dylib: Vec::new(),
            dyld_base: None,
            linkedit,
            dsc_tabs: None,
        };
        me.parse_header();
        let ghost base = MachOView { whole_buf: Some(mc@), ..me@ };
        proof {
            assert(me@.linkedit =~= Seq::new(NUM_LINKEDIT as nat, |i: int| Seq::<u8>::empty()));
            assert(me@.segments =~= Seq::empty());
            assert(me@.sections =~= Seq::empty());
            assert(me@.load_commands =~= Seq::empty());
            assert(me@.load_dylib =~= Seq::empty());
        }
        if do_lcs {
            let lc_off = if is64 {
                if buf.len() - hdr_offset - MACH_HEADER_SIZE < 4 {
                    buf.len()
                } else {
                    hdr_offset + MACH_HEADER_SIZE + 4
                }
            } else {
                hdr_offset + MACH_HEADER_SIZE
            };
            proof {
                let true_off = hdr_offset + MACH_HEADER_SIZE + (if is64 {
                    4int
                } else {
                    0int
                });
                // Past the end of the buffer every start of a walk reads
                // nothing, so the capped offset walks as the true one does.
                assert(commands_from(
                    is64,
                    end,
                    hdr_offset,
                    mc@,
                    mh.ncmds,
                    lc_off as int,
                    0,
                    lc_state_of(me@, warnings@),
                ) == commands_from(
                    is64,
                    end,
                    hdr_offset,
                    mc@,
                    mh.ncmds,
                    true_off,
                    0,
                    lc_state_of(me@, warnings@),
                ));
            }
            me.parse_load_commands(lc_off, buf, warnings);
        }
        me.eb.whole_buf = Some(mc);
        Ok(me)
    }

    /// Sets the architecture from the header's CPU type.
    pub fn parse_header(&mut self)
        ensures
            final(self)@ == (MachOView {
                arch: arch_of_cputype(old(self).mh.cputype),
                ..old(self)@
            }),
            final(self).linkedit == old(self).linkedit,
    {
        let c = self.mh.cputype;
        self.eb.arch = if c == CPU_TYPE_X86 {
            Arch::X86
        } else if c == CPU_TYPE_X86_64 {
            Arch::X86_64
        } else if c == CPU_TYPE_ARM {
            Arch::ARM
        } else if c == CPU_TYPE_ARM64 {
            Arch::AArch64
        } else if c == CPU_TYPE_POWERPC || c == CPU_TYPE_POWERPC64 {
            Arch::PowerPC
        } else {
            Arch::UnknownArch
        };
    }

    /// Walks the load commands, the first of which starts at `lc_off` in
    /// `mc`, and then fixes the base address.
    #[verifier::rlimit(50)]
    pub fn parse_load_commands(&mut self, lc_off: usize, mc: &[u8], warnings: &mut Vec<Warning>)
        requires
            old(self).wf(),
        ensures
            final(self).wf(),
            (final(self)@, final(warnings)@) == commands_parsed(
                old(self)@,
                mc@,
                lc_off as int,
                old(warnings)@,
            ),
    {
        let end = self.eb.endian;
        let is64 = self.is64;
        let hdr_offset = self.hdr_offset;
        let ncmds = self.mh.ncmds;
        let ghost target = commands_from(
            is64,
            end,
            hdr_offset,
            mc@,
            ncmds,
            lc_off as int,
            0,
            lc_state_of(self@, warnings@),
        );
        assert(mc@.len() == mc.len());
        let mut lci: u32 = 0;
        let mut off: usize = lc_off;
        while lci < ncmds
            invariant_except_break
                lci <= ncmds,
                commands_from(
                    is64,
                    end,
                    hdr_offset,
                    mc@,
                    ncmds,
                    off as int,
                    lci as int,
                    lc_state_of(self@, warnings@),
                ) == target,
            invariant
                self.wf(),
                mc@.len() == mc.len(),
                self@ == (MachOView {
                    segments: self@.segments,
                    sections: self@.sections,
                    linkedit: self@.linkedit,
                    load_dylib: self@.load_dylib,
                    load_commands: self@.load_commands,
                    ..old(self)@
                }),
            ensures
                lc_state_of(self@, warnings@) == target,
            decreases ncmds - lci,
        {
            if off > mc.len() || mc.len() - off < LOAD_COMMAND_SIZE {
                warnings.push(Warning::LoadCommandsTruncated);
                break ;
            }
            let cmd = read_u32(mc, off, end);
            let cmdsize = read_u32(mc, off + 4, end) as usize;
            if mc.len() - off < cmdsize {
                warnings.push(Warning::LoadCommandTooBig);
                break ;
            }
            let lc_buf = vstd::slice::slice_subrange(mc, off, off + cmdsize);
            let ghost st0 = lc_state_of(self@, warnings@);
            if cmd == LC_SEGMENT || cmd == LC_SEGMENT_64 {
                do_segment(
                    lc_buf,
                    mc,
                    cmd == LC_SEGMENT_64,
                    end,
                    hdr_offset,
                    lci as usize,
                    &mut self.eb.segments,
                    &mut self.eb.sections,
                    warnings,
                );
            } else if cmd == LC_DYLD_INFO || cmd == LC_DYLD_INFO_ONLY || cmd == LC_SYMTAB || cmd
                == LC_DYSYMTAB || cmd == LC_FUNCTION_STARTS || cmd == LC_DATA_IN_CODE || cmd
                == LC_DYLIB_CODE_SIGN_DRS || cmd == LC_SEGMENT_SPLIT_INFO || cmd
                == LC_LINKER_OPTIMIZATION_HINT || cmd == LC_CODE_SIGNATURE {
                do_linkedit(lc_buf, mc, cmd, is64, end, &mut self.linkedit, warnings);
            } else if cmd == LC_LOAD_DYLIB || cmd == LC_LOAD_WEAK_DYLIB || cmd == LC_REEXPORT_DYLIB
                || cmd == LC_LOAD_UPWARD_DYLIB {
                do_dylib(lc_buf, cmd, end, &mut self.load_dylib, warnings);
            }
            let lc_copy = vstd::slice::slice_to_vec(lc_buf);
            proof {
                lemma_bytes_views_push(self.load_commands@, lc_copy);
            }
            self.load_commands.push(lc_copy);
            assert(lc_state_of(self@, warnings@) == command_applied(
                is64,
                end,
                hdr_offset,
                mc@,
                cmd,
                lc_buf@,
                lci as usize,
                st0,
            ));
            off += cmdsize;
            lci += 1;
        }
        self.update_dyld_base();
    }

    /// Sets the base address for bind and export addresses from the
    /// segments.
    #[verifier::rlimit(50)]
    pub fn update_dyld_base(&mut self)
        ensures
            final(self)@ == (MachOView {
                dyld_base: dyld_base_after(
                    old(self)@.segments,
                    old(self).hdr_offset,
                    old(self).dyld_base,
                ),
                ..old(self)@
            }),
            final(self).linkedit == old(self).linkedit,
    {
        let mut i: usize = 0;
        while i < self.eb.segments.len()
            invariant
                i <= self.eb.segments@.len(),
                *self == *old(self),
                base_segment_from(self@.segments, self.hdr_offset, i as int) == base_segment_from(
                    self@.segments,
                    self.hdr_offset,
                    0,
                ),
            decreases self.eb.segments@.len() - i,
        {
            if self.eb.segments[i].fileoff == self.hdr_offset as u64 && self.eb.segments[i].filesize
                != 0 {
                self.dyld_base = Some(self.eb.segments[i].vmaddr);
                return ;
            }
            i += 1;
        }
    }
}

} // verus!
