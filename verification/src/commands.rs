//! The load commands of a rewritten image, made from the segments, sections
//! and link-edit regions as they now are.

use vstd::prelude::*;
use crate::defs::{
    DYLD_INFO_COMMAND_SIZE, DYSYMTAB_COMMAND_SIZE, LC_CODE_SIGNATURE, LC_DATA_IN_CODE,
    LC_DYLD_INFO, LC_DYLD_INFO_ONLY, LC_DYLIB_CODE_SIGN_DRS, LC_DYSYMTAB, LC_FUNCTION_STARTS,
    LC_LINKER_OPTIMIZATION_HINT, LC_SEGMENT, LC_SEGMENT_64, LC_SEGMENT_SPLIT_INFO, LC_SYMTAB,
    LINKEDIT_DATA_COMMAND_SIZE, SECTION_64_SIZE, SECTION_SIZE, SEGMENT_COMMAND_64_SIZE,
    SEGMENT_COMMAND_SIZE, SYMTAB_COMMAND_SIZE, VM_PROT_EXECUTE, VM_PROT_READ, VM_PROT_WRITE,
};
use crate::diag::Warning;
use crate::exec::{Prot, Segment, SegmentView, opt_bytes};
use crate::image::{
    LinkeditBit, MachO, MachOView, NUM_LINKEDIT, bytes_views, linkedit_bits,
    make_linkedit_bits,
};
use crate::layout::{name_field, name_too_long, seg_name_to_macho};
use crate::load_commands::{section_size, segment_command_size};
use crate::util::{
    Endian, append_bytes, append_zeros, copy_range, get_u32, patched, read_u32, u32_bytes,
    u64_bytes, write_u32, write_u64,
};

verus! {

/// The bytes of a pointer-sized value: 8 in a wide record, and the low 4 in
/// a narrow one.
pub open spec fn word_bytes(x: u64, wide: bool, end: Endian) -> Seq<u8> {
    if wide {
        u64_bytes(x, end)
    } else {
        u32_bytes(x as u32, end)
    }
}

fn write_word(out: &mut Vec<u8>, x: u64, wide: bool, end: Endian)
    ensures
        final(out)@ == old(out)@ + word_bytes(x, wide, end),
{
    if wide {
        write_u64(out, x, end);
    } else {
        write_u32(out, #[verifier::truncate] (x as u32), end);
    }
}

/// The protection as three bits.
pub open spec fn prot_bits(p: Prot) -> u32 {
    (if p.r {
        VM_PROT_READ
    } else {
        0
    }) | (if p.w {
        VM_PROT_WRITE
    } else {
        0
    }) | (if p.x {
        VM_PROT_EXECUTE
    } else {
        0
    })
}

/// `n` zero bytes.
pub open spec fn zeros(n: nat) -> Seq<u8> {
    Seq::new(n, |i: int| 0u8)
}

/// The command that a segment came from, when the image still holds it
/// with its fixed part whole.
pub open spec fn old_command(load_commands: Seq<Seq<u8>>, seg: SegmentView, wide: bool) -> Option<
    Seq<u8>,
> {
    match seg.private {
        Some(lci) => if lci < load_commands.len() && load_commands[lci as int].len()
            >= segment_command_size(wide) {
            Some(load_commands[lci as int])
        } else {
            None
        },
        None => None,
    }
}

/// The record that a section came from, when the old command holds it.
pub open spec fn old_section(old: Option<Seq<u8>>, sect: SegmentView, wide: bool) -> Option<Seq<u8>> {
    match (old, sect.private) {
        (Some(lc), Some(k)) => {
            let off = segment_command_size(wide) + k * section_size(wide);
            if off + section_size(wide) <= lc.len() {
                Some(lc.subrange(off, off + section_size(wide)))
            } else {
                None
            }
        },
        _ => None,
    }
}

/// The record of a section: its name, the name of its segment, its address,
/// size and file offset, and the other fields as the old record has them, or
/// zero. The size is the size in memory.
pub open spec fn section_record(
    sect: SegmentView,
    segname: Seq<u8>,
    old: Option<Seq<u8>>,
    wide: bool,
    end: Endian,
) -> Seq<u8> {
    let w: int = if wide {
        8
    } else {
        4
    };
    name_field(sect.name) + segname + word_bytes(sect.vmaddr, wide, end) + word_bytes(
        sect.vmsize,
        wide,
        end,
    ) + u32_bytes(sect.fileoff as u32, end) + (match old {
        Some(r) => r.subrange(36 + 2 * w, section_size(wide) as int),
        None => zeros((section_size(wide) - 36 - 2 * w) as nat),
    })
}

/// The records of the sections of segment `segi` from the `k`-th section of
/// the image on, added to `records`; `n` counts them.
pub open spec fn section_records_from(
    sections: Seq<SegmentView>,
    segi: usize,
    segname: Seq<u8>,
    old: Option<Seq<u8>>,
    wide: bool,
    end: Endian,
    k: int,
    n: int,
    records: Seq<u8>,
    warnings: Seq<Warning>,
) -> (int, Seq<u8>, Seq<Warning>)
    decreases sections.len() - k,
{
    if k < 0 || k >= sections.len() {
        (n, records, warnings)
    } else if sections[k].seg_idx != Some(segi) {
        section_records_from(sections, segi, segname, old, wide, end, k + 1, n, records, warnings)
    } else {
        let sect = sections[k];
        let w1 = if name_too_long(sect.name) {
            warnings.push(Warning::SectionNameTooLong)
        } else {
            warnings
        };
        let w2 = if sect.filesize != sect.vmsize && sect.filesize != 0 {
            w1.push(Warning::SectionSizeMismatch)
        } else {
            w1
        };
        section_records_from(
            sections,
            segi,
            segname,
            old,
            wide,
            end,
            k + 1,
            n + 1,
            records + section_record(sect, segname, old_section(old, sect, wide), wide, end),
            w2,
        )
    }
}

/// The fixed part of a segment command: kind and size, the name, address
/// and size in memory, offset and size in the file, the protection, and the
/// number of sections. The greatest protection and the flags are those of the
/// old command; a new segment may be given every protection, and has no
/// flags.
pub open spec fn segment_fixed(
    seg: SegmentView,
    old: Option<Seq<u8>>,
    nsects: int,
    wide: bool,
    end: Endian,
) -> Seq<u8> {
    let w: int = if wide {
        8
    } else {
        4
    };
    u32_bytes(
        if wide {
            LC_SEGMENT_64
        } else {
            LC_SEGMENT
        },
        end,
    ) + u32_bytes((segment_command_size(wide) + nsects * section_size(wide)) as u32, end)
        + name_field(seg.name) + word_bytes(seg.vmaddr, wide, end) + word_bytes(
        seg.vmsize,
        wide,
        end,
    ) + word_bytes(seg.fileoff, wide, end) + word_bytes(seg.filesize, wide, end) + (match old {
        Some(lc) => lc.subrange(24 + 4 * w, 28 + 4 * w),
        None => u32_bytes(7, end),
    }) + u32_bytes(prot_bits(seg.prot), end) + u32_bytes(nsects as u32, end) + (match old {
        Some(lc) => lc.subrange(36 + 4 * w, 40 + 4 * w),
        None => zeros(4),
    })
}

/// The command of segment `segi`, with the warnings it earns added to
/// `warnings`.
pub open spec fn segment_command(m: MachOView, segi: usize, warnings: Seq<Warning>) -> (
    Seq<u8>,
    Seq<Warning>,
) {
    let seg = m.segments[segi as int];
    let old = old_command(m.load_commands, seg, m.is64);
    let w1 = if name_too_long(seg.name) {
        warnings.push(Warning::SegmentNameTooLong)
    } else {
        warnings
    };
    let r = section_records_from(
        m.sections,
        segi,
        name_field(seg.name),
        old,
        m.is64,
        m.endian,
        0,
        0,
        Seq::empty(),
        w1,
    );
    (segment_fixed(seg, old, r.0, m.is64, m.endian) + r.1, r.2)
}

/// The commands of the segments: those of segments that came from a load
/// command, at the place of that command; and those of new segments, in order.
pub struct SegCmds {
    pub existing: Seq<Option<Seq<u8>>>,
    pub extra: Seq<Seq<u8>>,
    pub warnings: Seq<Warning>,
}

/// Whether the segment came from a load command that the image holds.
pub open spec fn has_place(m: MachOView, seg: SegmentView) -> bool {
    seg.private is Some && seg.private->Some_0 < m.load_commands.len()
}

/// The commands of the segments from the `segi`-th on, added to `acc`.
pub open spec fn seg_cmds_from(m: MachOView, segi: int, acc: SegCmds) -> SegCmds
    decreases m.segments.len() - segi,
{
    if segi < 0 || segi >= m.segments.len() {
        acc
    } else {
        let seg = m.segments[segi];
        let c = segment_command(m, segi as usize, acc.warnings);
        seg_cmds_from(
            m,
            segi + 1,
            if has_place(m, seg) {
                SegCmds {
                    existing: acc.existing.update(seg.private->Some_0 as int, Some(c.0)),
                    warnings: c.1,
                    ..acc
                }
            } else {
                SegCmds { extra: acc.extra.push(c.0), warnings: c.1, ..acc }
            },
        )
    }
}

/// The commands of all segments of an image.
pub open spec fn seg_cmds(m: MachOView, warnings: Seq<Warning>) -> SegCmds {
    seg_cmds_from(
        m,
        0,
        SegCmds {
            existing: Seq::new(m.load_commands.len(), |i: int| None::<Seq<u8>>),
            extra: Seq::empty(),
            warnings,
        },
    )
}

/// The views of a list of optional byte strings.
pub open spec fn opt_views(v: Seq<Option<Vec<u8>>>) -> Seq<Option<Seq<u8>>> {
    v.map_values(|o: Option<Vec<u8>>| opt_bytes(o))
}

fn prot_to_u32(p: Prot) -> (r: u32)
    ensures
        r == prot_bits(p),
{
    let r: u32 = if p.r {
        VM_PROT_READ
    } else {
        0
    };
    let w: u32 = if p.w {
        VM_PROT_WRITE
    } else {
        0
    };
    let x: u32 = if p.x {
        VM_PROT_EXECUTE
    } else {
        0
    };
    r | w | x
}

/// Whether a byte string that was read is the one that is meant.
pub open spec fn same_bytes(got: Option<&[u8]>, want: Option<Seq<u8>>) -> bool {
    match want {
        Some(b) => got is Some && got->Some_0@ == b,
        None => got is None,
    }
}

#[verifier::rlimit(50)]
fn find_old_section<'a>(olcbuf: Option<&'a [u8]>, sect: &Segment, wide: bool) -> (r: Option<
    &'a [u8],
>)
    requires
        olcbuf is Some ==> olcbuf->Some_0@.len() >= segment_command_size(wide),
    ensures
        same_bytes(
            r,
            old_section(
                match olcbuf {
                    Some(lc) => Some(lc@),
                    None => None,
                },
                sect@,
                wide,
            ),
        ),
{
    let sc_size: usize = if wide {
        SEGMENT_COMMAND_64_SIZE
    } else {
        SEGMENT_COMMAND_SIZE
    };
    let sect_size: usize = if wide {
        SECTION_64_SIZE
    } else {
        SECTION_SIZE
    };
    match (olcbuf, sect.private) {
        (Some(lc), Some(idx)) => {
            assert(lc@.len() == lc.len());
            let room = lc.len() - sc_size;
            proof {
                let q = room as int / (sect_size as int);
                vstd::arithmetic::div_mod::lemma_fundamental_div_mod(room as int, sect_size as int);
                vstd::arithmetic::mul::lemma_mul_is_commutative(sect_size as int, q);
                vstd::arithmetic::mul::lemma_mul_is_distributive_add_other_way(
                    sect_size as int,
                    idx as int,
                    1,
                );
                if idx < q {
                    vstd::arithmetic::mul::lemma_mul_inequality(idx + 1, q, sect_size as int);
                } else {
                    vstd::arithmetic::mul::lemma_mul_inequality(q + 1, idx + 1, sect_size as int);
                    vstd::arithmetic::mul::lemma_mul_is_distributive_add_other_way(
                        sect_size as int,
                        q,
                        1,
                    );
                }
            }
            if idx < room / sect_size {
                Some(
                    vstd::slice::slice_subrange(
                        lc,
                        sc_size + idx * sect_size,
                        sc_size + idx * sect_size + sect_size,
                    ),
                )
            } else {
                None
            }
        },
        _ => None,
    }
}

#[verifier::rlimit(50)]
fn push_section_record(
    records: &mut Vec<u8>,
    sect: &Segment,
    segname: &Vec<u8>,
    old_record: Option<&[u8]>,
    wide: bool,
    end: Endian,
    warnings: &mut Vec<Warning>,
)
    requires
        old_record is Some ==> old_record->Some_0@.len() == section_size(wide),
    ensures
        final(records)@ == old(records)@ + section_record(
            sect@,
            segname@,
            match old_record {
                Some(r) => Some(r@),
                None => None,
            },
            wide,
            end,
        ),
        final(warnings)@ == ({
            let w1 = if name_too_long(sect@.name) {
                old(warnings)@.push(Warning::SectionNameTooLong)
            } else {
                old(warnings)@
            };
            if sect.filesize != sect.vmsize && sect.filesize != 0 {
                w1.push(Warning::SectionSizeMismatch)
            } else {
                w1
            }
        }),
{
    let sect_size: usize = if wide {
        SECTION_64_SIZE
    } else {
        SECTION_SIZE
    };
    let w: usize = if wide {
        8
    } else {
        4
    };
    let name = seg_name_to_macho(sect, Warning::SectionNameTooLong, warnings);
    if sect.filesize != sect.vmsize && sect.filesize != 0 {
        warnings.push(Warning::SectionSizeMismatch);
    }
    append_bytes(records, name.as_slice());
    append_bytes(records, segname.as_slice());
    write_word(records, sect.vmaddr, wide, end);
    write_word(records, sect.vmsize, wide, end);
    write_u32(records, #[verifier::truncate] (sect.fileoff as u32), end);
    match old_record {
        Some(r) => {
            assert(r@.len() == r.len());
            append_bytes(records, vstd::slice::slice_subrange(r, 36 + 2 * w, sect_size));
        },
        None => {
            append_zeros(records, sect_size - 36 - 2 * w);
        },
    }
    assert(records@ =~= old(records)@ + section_record(
        sect@,
        segname@,
        match old_record {
            Some(r) => Some(r@),
            None => None,
        },
        wide,
        end,
    ));
}

impl MachO {
    /// Makes the command of segment `segi`.
    #[verifier::rlimit(50)]
    fn segment_cmd(&self, segi: usize, warnings: &mut Vec<Warning>) -> (r: Vec<u8>)
        requires
            segi < self.eb.segments@.len(),
        ensures
            (r@, final(warnings)@) == segment_command(self@, segi, old(warnings)@),
    {
        let wide = self.is64;
        let end = self.eb.endian;
        let sc_size: usize = if wide {
            SEGMENT_COMMAND_64_SIZE
        } else {
            SEGMENT_COMMAND_SIZE
        };
        let sect_size: usize = if wide {
            SECTION_64_SIZE
        } else {
            SECTION_SIZE
        };
        let w: usize = if wide {
            8
        } else {
            4
        };
        let seg = &self.eb.segments[segi];
        assert(self@.segments[segi as int] == seg@);
        let ghost old = old_command(self@.load_commands, seg@, wide);
        let olcbuf: Option<&[u8]> = match seg.private {
            Some(lci) => if lci < self.load_commands.len() && self.load_commands[lci].len()
                >= sc_size {
                assert(self@.load_commands[lci as int] == self.load_commands@[lci as int]@);
                Some(self.load_commands[lci].as_slice())
            } else {
                None
            },
            None => None,
        };
        assert(match old {
            Some(lc) => olcbuf is Some && olcbuf->Some_0@ == lc,
            None => olcbuf is None,
        });
        let segname = seg_name_to_macho(seg, Warning::SegmentNameTooLong, warnings);
        let mut records: Vec<u8> = Vec::new();
        let mut nsects: usize = 0;
        let ghost target = section_records_from(
            self@.sections,
            segi,
            segname@,
            old,
            wide,
            end,
            0,
            0,
            Seq::empty(),
            warnings@,
        );
        let mut k: usize = 0;
        while k < self.eb.sections.len()
            invariant
                k <= self.eb.sections@.len(),
                nsects <= k,
                section_records_from(
                    self@.sections,
                    segi,
                    segname@,
                    old,
                    wide,
                    end,
                    k as int,
                    nsects as int,
                    records@,
                    warnings@,
                ) == target,
                match old {
                    Some(lc) => olcbuf is Some && olcbuf->Some_0@ == lc && lc.len() >= sc_size,
                    None => olcbuf is None,
                },
                sc_size == segment_command_size(wide),
                sect_size == section_size(wide),
                w == (if wide {
                    8int
                } else {
                    4int
                }),
                segname@.len() == 16,
                wide == self.is64,
                end == self.eb.endian,
            decreases self.eb.sections@.len() - k,
        {
            let sect = &self.eb.sections[k];
            assert(self@.sections[k as int] == sect@);
            let belongs = match sect.seg_idx {
                Some(si) => si == segi,
                None => false,
            };
            if belongs {
                let old_record = find_old_section(olcbuf, sect, wide);
                push_section_record(&mut records, sect, &segname, old_record, wide, end, warnings);
                nsects += 1;
            }
            k += 1;
        }
        let mut cmd: Vec<u8> = Vec::new();
        write_u32(
            &mut cmd,
            if wide {
                LC_SEGMENT_64
            } else {
                LC_SEGMENT
            },
            end,
        );
        assert(nsects * sect_size <= 80 * 0xffff_ffff_ffff_ffff) by (nonlinear_arith)
            requires
                nsects <= 0xffff_ffff_ffff_ffff,
                sect_size <= 80,
        ;
        let total: u128 = sc_size as u128 + nsects as u128 * sect_size as u128;
        write_u32(&mut cmd, #[verifier::truncate] (total as u32), end);
        append_bytes(&mut cmd, segname.as_slice());
        write_word(&mut cmd, seg.vmaddr, wide, end);
        write_word(&mut cmd, seg.vmsize, wide, end);
        write_word(&mut cmd, seg.fileoff, wide, end);
        write_word(&mut cmd, seg.filesize, wide, end);
        match olcbuf {
            Some(lc) => {
                assert(lc@.len() == lc.len());
                append_bytes(&mut cmd, vstd::slice::slice_subrange(lc, 24 + 4 * w, 28 + 4 * w));
            },
            None => {
                write_u32(&mut cmd, 7, end);
            },
        }
        write_u32(&mut cmd, prot_to_u32(seg.prot), end);
        write_u32(&mut cmd, #[verifier::truncate] (nsects as u32), end);
        match olcbuf {
            Some(lc) => {
                assert(lc@.len() == lc.len());
                append_bytes(&mut cmd, vstd::slice::slice_subrange(lc, 36 + 4 * w, 40 + 4 * w));
            },
            None => {
                append_zeros(&mut cmd, 4);
            },
        }
        assert(cmd@ =~= segment_fixed(seg@, old, nsects as int, wide, end));
        append_bytes(&mut cmd, records.as_slice());
        cmd
    }

    /// Makes the commands of all segments.
    #[verifier::rlimit(50)]
    pub fn update_seg_cmds(&self, warnings: &mut Vec<Warning>) -> (r: (
        Vec<Option<Vec<u8>>>,
        Vec<Vec<u8>>,
    ))
        ensures
            ({
                let c = seg_cmds(self@, old(warnings)@);
                &&& opt_views(r.0@) == c.existing
                &&& bytes_views(r.1@) == c.extra
                &&& final(warnings)@ == c.warnings
            }),
            r.0@.len() == self.load_commands@.len(),
    {
        let mut existing: Vec<Option<Vec<u8>>> = Vec::new();
        let mut extra: Vec<Vec<u8>> = Vec::new();
        let mut i: usize = 0;
        while i < self.load_commands.len()
            invariant
                i <= self.load_commands@.len(),
                existing@.len() == i,
                forall|j: int| 0 <= j < i ==> (#[trigger] existing@[j]) is None,
            decreases self.load_commands@.len() - i,
        {
            existing.push(None);
            i += 1;
        }
        assert(opt_views(existing@) =~= Seq::new(
            self@.load_commands.len(),
            |i: int| None::<Seq<u8>>,
        ));
        assert(bytes_views(extra@) =~= Seq::empty());
        let ghost target = seg_cmds(self@, warnings@);
        let mut segi: usize = 0;
        while segi < self.eb.segments.len()
            invariant
                segi <= self.eb.segments@.len(),
                existing@.len() == self.load_commands@.len(),
                seg_cmds_from(
                    self@,
                    segi as int,
                    SegCmds {
                        existing: opt_views(existing@),
                        extra: bytes_views(extra@),
                        warnings: warnings@,
                    },
                ) == target,
            decreases self.eb.segments@.len() - segi,
        {
            let cmd = self.segment_cmd(segi, warnings);
            assert(self@.segments[segi as int] == self.eb.segments@[segi as int]@);
            let place = match self.eb.segments[segi].private {
                Some(lci) => if lci < self.load_commands.len() {
                    Some(lci)
                } else {
                    None
                },
                None => None,
            };
            match place {
                Some(lci) => {
                    assert(opt_views(existing@.update(lci as int, Some(cmd))) =~= opt_views(
                        existing@,
                    ).update(lci as int, Some(cmd@)));
                    existing.set(lci, Some(cmd));
                },
                None => {
                    assert(bytes_views(extra@.push(cmd)) =~= bytes_views(extra@).push(cmd@));
                    extra.push(cmd);
                },
            }
            segi += 1;
        }
        (existing, extra)
    }
}

/// The kinds of load command that describe link-edit regions, each with the
/// size of its record.
pub open spec fn bit_cmd_kinds() -> Seq<(u32, usize)> {
    seq![
        (LC_DYLD_INFO, DYLD_INFO_COMMAND_SIZE),
        (LC_SYMTAB, SYMTAB_COMMAND_SIZE),
        (LC_DYSYMTAB, DYSYMTAB_COMMAND_SIZE),
        (LC_DYLIB_CODE_SIGN_DRS, LINKEDIT_DATA_COMMAND_SIZE),
        (LC_SEGMENT_SPLIT_INFO, LINKEDIT_DATA_COMMAND_SIZE),
        (LC_FUNCTION_STARTS, LINKEDIT_DATA_COMMAND_SIZE),
        (LC_DATA_IN_CODE, LINKEDIT_DATA_COMMAND_SIZE),
        (LC_LINKER_OPTIMIZATION_HINT, LINKEDIT_DATA_COMMAND_SIZE),
        (LC_CODE_SIGNATURE, LINKEDIT_DATA_COMMAND_SIZE),
    ]
}

/// The number of such kinds.
pub const NUM_BIT_CMDS: usize = 9;

/// The place of a kind of command among those that describe link-edit
/// regions.
pub open spec fn bit_index(cmd_id: u32) -> Option<int> {
    if cmd_id == LC_DYLD_INFO || cmd_id == LC_DYLD_INFO_ONLY {
        Some(0)
    } else if cmd_id == LC_SYMTAB {
        Some(1)
    } else if cmd_id == LC_DYSYMTAB {
        Some(2)
    } else if cmd_id == LC_DYLIB_CODE_SIGN_DRS {
        Some(3)
    } else if cmd_id == LC_SEGMENT_SPLIT_INFO {
        Some(4)
    } else if cmd_id == LC_FUNCTION_STARTS {
        Some(5)
    } else if cmd_id == LC_DATA_IN_CODE {
        Some(6)
    } else if cmd_id == LC_LINKER_OPTIMIZATION_HINT {
        Some(7)
    } else if cmd_id == LC_CODE_SIGNATURE {
        Some(8)
    } else {
        None
    }
}

/// The kind of a load command; 0, which no command has, for one too short
/// to say.
pub open spec fn cmd_id_of(lc: Seq<u8>, end: Endian) -> u32 {
    if lc.len() >= 4 {
        get_u32(lc, 0, end)
    } else {
        0
    }
}

/// Whether one of the commands from the `i`-th on is of kind `id`.
pub open spec fn has_cmd_from(lcs: Seq<Seq<u8>>, end: Endian, id: u32, i: int) -> bool
    decreases lcs.len() - i,
{
    if i < 0 || i >= lcs.len() {
        false
    } else {
        cmd_id_of(lcs[i], end) == id || has_cmd_from(lcs, end, id, i + 1)
    }
}

/// The kind under which the dyld info is written: the plain kind when the
/// image has a command of it, and else the kind that only dyld needs.
pub open spec fn dyld_info_kind(lcs: Seq<Seq<u8>>, end: Endian) -> u32 {
    if has_cmd_from(lcs, end, LC_DYLD_INFO, 0) {
        LC_DYLD_INFO
    } else {
        LC_DYLD_INFO_ONLY
    }
}

/// What is written into a command as the offset of a region: 0 for an empty
/// region, the number of its first record for a part of the symbol table, and
/// else its place in the file.
pub open spec fn region_offset(fb: LinkeditBit, linkedit_off: u64, alloc: (usize, usize)) -> int {
    if alloc.1 == 0 {
        0
    } else if fb.is_symtab {
        alloc.0 as int / fb.elm_size as int
    } else {
        alloc.0 + linkedit_off
    }
}

/// A command record with the offsets and counts of its regions written in,
/// for the registry's entries from the `i`-th on; the flag says whether any of
/// the regions holds anything.
pub open spec fn bit_fields_from(
    is64: bool,
    end: Endian,
    cmd: u32,
    linkedit_off: u64,
    allocs: Seq<(usize, usize)>,
    i: int,
    buf: Seq<u8>,
    got_any: bool,
) -> (Seq<u8>, bool)
    decreases NUM_LINKEDIT - i,
{
    if i < 0 || i >= NUM_LINKEDIT {
        (buf, got_any)
    } else {
        let fb = linkedit_bits(is64)[i];
        if cmd != fb.cmd_id {
            bit_fields_from(is64, end, cmd, linkedit_off, allocs, i + 1, buf, got_any)
        } else {
            let off = region_offset(fb, linkedit_off, allocs[i]);
            let count = allocs[i].1 as int / fb.elm_size as int;
            bit_fields_from(
                is64,
                end,
                cmd,
                linkedit_off,
                allocs,
                i + 1,
                patched(
                    patched(buf, fb.cmd_off_field_off as int, u32_bytes(off as u32, end)),
                    fb.cmd_count_field_off as int,
                    u32_bytes(count as u32, end),
                ),
                got_any || allocs[i].1 > 0,
            )
        }
    }
}

/// The command of the `k`-th kind, when one of its regions holds anything.
/// Its regions lie in the file from `linkedit_off` on, at the places that
/// `allocs` gives.
pub open spec fn bit_cmd(
    is64: bool,
    end: Endian,
    k: int,
    info_kind: u32,
    linkedit_off: u64,
    allocs: Seq<(usize, usize)>,
) -> Option<Seq<u8>> {
    let (cmd, cmdsize) = bit_cmd_kinds()[k];
    let r = bit_fields_from(
        is64,
        end,
        cmd,
        linkedit_off,
        allocs,
        0,
        u32_bytes(
            if cmd == LC_DYLD_INFO {
                info_kind
            } else {
                cmd
            },
            end,
        ) + u32_bytes(cmdsize as u32, end) + zeros((cmdsize - 8) as nat),
        false,
    );
    if r.1 {
        Some(r.0)
    } else {
        None
    }
}

/// The fields of a region lie within the record of its command.
proof fn lemma_bit_fields_fit(is64: bool, i: int, k: int)
    requires
        0 <= i < NUM_LINKEDIT,
        0 <= k < NUM_BIT_CMDS,
        linkedit_bits(is64)[i].cmd_id == bit_cmd_kinds()[k].0,
    ensures
        linkedit_bits(is64)[i].cmd_off_field_off + 4 <= bit_cmd_kinds()[k].1,
        linkedit_bits(is64)[i].cmd_count_field_off + 4 <= bit_cmd_kinds()[k].1,
        linkedit_bits(is64)[i].elm_size > 0,
{
}

/// Replaces four bytes of `buf` by those of `x`.
fn put_u32(buf: &mut Vec<u8>, off: usize, x: u32, end: Endian)
    requires
        off + 4 <= old(buf)@.len(),
    ensures
        final(buf)@ == patched(old(buf)@, off as int, u32_bytes(x, end)),
{
    let mut tmp: Vec<u8> = Vec::new();
    write_u32(&mut tmp, x, end);
    let n = buf.len();
    assert(off + 4 <= n);
    buf.set(off, tmp[0]);
    buf.set(off + 1, tmp[1]);
    buf.set(off + 2, tmp[2]);
    buf.set(off + 3, tmp[3]);
    assert(buf@ =~= patched(old(buf)@, off as int, u32_bytes(x, end)));
}

fn kind_of_bit_cmd(k: usize) -> (r: (u32, usize))
    requires
        k < NUM_BIT_CMDS,
    ensures
        r == bit_cmd_kinds()[k as int],
{
    if k == 0 {
        (LC_DYLD_INFO, DYLD_INFO_COMMAND_SIZE)
    } else if k == 1 {
        (LC_SYMTAB, SYMTAB_COMMAND_SIZE)
    } else if k == 2 {
        (LC_DYSYMTAB, DYSYMTAB_COMMAND_SIZE)
    } else if k == 3 {
        (LC_DYLIB_CODE_SIGN_DRS, LINKEDIT_DATA_COMMAND_SIZE)
    } else if k == 4 {
        (LC_SEGMENT_SPLIT_INFO, LINKEDIT_DATA_COMMAND_SIZE)
    } else if k == 5 {
        (LC_FUNCTION_STARTS, LINKEDIT_DATA_COMMAND_SIZE)
    } else if k == 6 {
        (LC_DATA_IN_CODE, LINKEDIT_DATA_COMMAND_SIZE)
    } else if k == 7 {
        (LC_LINKER_OPTIMIZATION_HINT, LINKEDIT_DATA_COMMAND_SIZE)
    } else {
        (LC_CODE_SIGNATURE, LINKEDIT_DATA_COMMAND_SIZE)
    }
}

/// Makes the command of the `k`-th kind that describes link-edit regions.
#[verifier::rlimit(50)]
fn make_bit_cmd(
    bits: &Vec<LinkeditBit>,
    is64: bool,
    end: Endian,
    k: usize,
    info_kind: u32,
    linkedit_off: u64,
    allocs: &[(usize, usize)],
) -> (r: Option<Vec<u8>>)
    requires
        bits@ == linkedit_bits(is64),
        k < NUM_BIT_CMDS,
        allocs@.len() == NUM_LINKEDIT,
    ensures
        opt_bytes(r) == bit_cmd(is64, end, k as int, info_kind, linkedit_off, allocs@),
{
    let (cmd, cmdsize) = kind_of_bit_cmd(k);
    let mut buf: Vec<u8> = Vec::new();
    write_u32(
        &mut buf,
        if cmd == LC_DYLD_INFO {
            info_kind
        } else {
            cmd
        },
        end,
    );
    write_u32(&mut buf, cmdsize as u32, end);
    append_zeros(&mut buf, cmdsize - 8);
    assert(buf@ =~= u32_bytes(
        if cmd == LC_DYLD_INFO {
            info_kind
        } else {
            cmd
        },
        end,
    ) + u32_bytes(cmdsize as u32, end) + zeros((cmdsize - 8) as nat));
    let ghost target = bit_fields_from(is64, end, cmd, linkedit_off, allocs@, 0, buf@, false);
    let mut got_any = false;
    let mut i: usize = 0;
    while i < NUM_LINKEDIT
        invariant
            i <= NUM_LINKEDIT,
            bits@ == linkedit_bits(is64),
            allocs@.len() == NUM_LINKEDIT,
            k < NUM_BIT_CMDS,
            (cmd, cmdsize) == bit_cmd_kinds()[k as int],
            buf@.len() == cmdsize,
            bit_fields_from(is64, end, cmd, linkedit_off, allocs@, i as int, buf@, got_any)
                == target,
        decreases NUM_LINKEDIT - i,
    {
        let fb = bits[i];
        if cmd == fb.cmd_id {
            proof {
                lemma_bit_fields_fit(is64, i as int, k as int);
            }
            let (off0, len) = allocs[i];
            let off: u128 = if len == 0 {
                0
            } else if fb.is_symtab {
                (off0 / fb.elm_size) as u128
            } else {
                off0 as u128 + linkedit_off as u128
            };
            put_u32(&mut buf, fb.cmd_off_field_off, #[verifier::truncate] (off as u32), end);
            put_u32(
                &mut buf,
                fb.cmd_count_field_off,
                #[verifier::truncate] ((len / fb.elm_size) as u32),
                end,
            );
            if len > 0 {
                got_any = true;
            }
        }
        i += 1;
    }
    if got_any {
        Some(buf)
    } else {
        None
    }
}

/// The entries of a list that are there, in order, added to `acc`.
pub open spec fn somes_from(s: Seq<Option<Seq<u8>>>, i: int, acc: Seq<Seq<u8>>) -> Seq<Seq<u8>>
    decreases s.len() - i,
{
    if i < 0 || i >= s.len() {
        acc
    } else {
        somes_from(
            s,
            i + 1,
            match s[i] {
                Some(c) => acc.push(c),
                None => acc,
            },
        )
    }
}

/// Where the making of the new list of commands stands.
pub struct CmdsAcc {
    pub cmds: Seq<Seq<u8>>,
    /// The segment commands not yet placed.
    pub existing: Seq<Option<Seq<u8>>>,
    /// The link-edit commands not yet placed.
    pub bit_cmds: Seq<Option<Seq<u8>>>,
    /// Where the first command that is not a segment command stood.
    pub insert_at: Option<int>,
}

/// The list after the old commands from the `lci`-th on were gone through:
/// in place of a segment command stands the new command of its segment, if
/// there is one; in place of the first command of a kind that describes
/// link-edit regions stands the new command of that kind, if there is one,
/// and later ones of that kind are left out; every other command is kept.
pub open spec fn cmds_from(lcs: Seq<Seq<u8>>, end: Endian, lci: int, acc: CmdsAcc) -> CmdsAcc
    decreases lcs.len() - lci,
{
    if lci < 0 || lci >= lcs.len() {
        acc
    } else {
        let id = cmd_id_of(lcs[lci], end);
        let is_seg = id == LC_SEGMENT || id == LC_SEGMENT_64;
        let acc1 = if !is_seg && acc.insert_at is None {
            CmdsAcc { insert_at: Some(acc.cmds.len() as int), ..acc }
        } else {
            acc
        };
        let acc2 = if is_seg {
            match acc1.existing[lci] {
                Some(c) => CmdsAcc {
                    cmds: acc1.cmds.push(c),
                    existing: acc1.existing.update(lci, None),
                    ..acc1
                },
                None => acc1,
            }
        } else {
            match bit_index(id) {
                Some(k) => match acc1.bit_cmds[k] {
                    Some(c) => CmdsAcc {
                        cmds: acc1.cmds.push(c),
                        bit_cmds: acc1.bit_cmds.update(k, None),
                        ..acc1
                    },
                    None => acc1,
                },
                None => CmdsAcc { cmds: acc1.cmds.push(lcs[lci]), ..acc1 },
            }
        };
        cmds_from(lcs, end, lci + 1, acc2)
    }
}

/// The new list of load commands, and the warnings that making it gives.
/// The old commands are gone through in order. Link-edit commands of kinds
/// that the image did not have come at the end. The commands of segments
/// that have no place yet come where the first command that is not a segment
/// command stood, or last if there was none: first those of segments that
/// came from a load command, then those of new segments.
pub open spec fn updated_cmds(
    m: MachOView,
    linkedit_off: u64,
    allocs: Seq<(usize, usize)>,
    warnings: Seq<Warning>,
) -> (Seq<Seq<u8>>, Seq<Warning>) {
    let segs = seg_cmds(m, warnings);
    let info_kind = dyld_info_kind(m.load_commands, m.endian);
    let acc = cmds_from(
        m.load_commands,
        m.endian,
        0,
        CmdsAcc {
            cmds: Seq::empty(),
            existing: segs.existing,
            bit_cmds: Seq::new(
                NUM_BIT_CMDS as nat,
                |k: int| bit_cmd(m.is64, m.endian, k, info_kind, linkedit_off, allocs),
            ),
            insert_at: None,
        },
    );
    let cmds = somes_from(acc.bit_cmds, 0, acc.cmds);
    let at = match acc.insert_at {
        Some(at) => at,
        None => cmds.len() as int,
    };
    (
        cmds.subrange(0, at) + somes_from(acc.existing, 0, Seq::empty()) + segs.extra
            + cmds.subrange(at, cmds.len() as int),
        segs.warnings,
    )
}

fn clone_bytes(v: &Vec<u8>) -> (r: Vec<u8>)
    ensures
        r@ == v@,
{
    let r = copy_range(v.as_slice(), 0, v.len());
    assert(r@ =~= v@);
    r
}

/// Adds to `out` the entries of `s` that are there.
fn push_somes(s: &Vec<Option<Vec<u8>>>, out: &mut Vec<Vec<u8>>)
    ensures
        bytes_views(final(out)@) == somes_from(opt_views(s@), 0, bytes_views(old(out)@)),
{
    let ghost target = somes_from(opt_views(s@), 0, bytes_views(out@));
    let mut i: usize = 0;
    while i < s.len()
        invariant
            i <= s@.len(),
            somes_from(opt_views(s@), i as int, bytes_views(out@)) == target,
        decreases s@.len() - i,
    {
        assert(opt_views(s@)[i as int] == opt_bytes(s@[i as int]));
        match &s[i] {
            Some(c) => {
                let copy = clone_bytes(c);
                assert(bytes_views(out@.push(copy)) =~= bytes_views(out@).push(copy@));
                out.push(copy);
            },
            None => {},
        }
        i += 1;
    }
}

/// Adds to `out` copies of the entries of `s` from `from` up to `to`.
fn push_range(s: &Vec<Vec<u8>>, from: usize, to: usize, out: &mut Vec<Vec<u8>>)
    requires
        from <= to <= s@.len(),
    ensures
        bytes_views(final(out)@) == bytes_views(old(out)@) + bytes_views(s@).subrange(
            from as int,
            to as int,
        ),
{
    let mut i: usize = from;
    while i < to
        invariant
            from <= i <= to <= s@.len(),
            bytes_views(out@) == bytes_views(old(out)@) + bytes_views(s@).subrange(
                from as int,
                i as int,
            ),
        decreases to - i,
    {
        let copy = clone_bytes(&s[i]);
        assert(bytes_views(s@).subrange(from as int, i + 1) =~= bytes_views(s@).subrange(
            from as int,
            i as int,
        ).push(copy@));
        assert(bytes_views(out@.push(copy)) =~= bytes_views(out@).push(copy@));
        out.push(copy);
        i += 1;
    }
}

fn cmd_id(lc: &Vec<u8>, end: Endian) -> (r: u32)
    ensures
        r == cmd_id_of(lc@, end),
{
    if lc.len() >= 4 {
        read_u32(lc.as_slice(), 0, end)
    } else {
        0
    }
}

fn bit_cmd_index(id: u32) -> (r: Option<usize>)
    ensures
        match bit_index(id) {
            Some(k) => r == Some(k as usize) && 0 <= k < NUM_BIT_CMDS,
            None => r is None,
        },
{
    if id == LC_DYLD_INFO || id == LC_DYLD_INFO_ONLY {
        Some(0)
    } else if id == LC_SYMTAB {
        Some(1)
    } else if id == LC_DYSYMTAB {
        Some(2)
    } else if id == LC_DYLIB_CODE_SIGN_DRS {
        Some(3)
    } else if id == LC_SEGMENT_SPLIT_INFO {
        Some(4)
    } else if id == LC_FUNCTION_STARTS {
        Some(5)
    } else if id == LC_DATA_IN_CODE {
        Some(6)
    } else if id == LC_LINKER_OPTIMIZATION_HINT {
        Some(7)
    } else if id == LC_CODE_SIGNATURE {
        Some(8)
    } else {
        None
    }
}

impl MachO {
    /// Makes the new list of load commands. The link-edit regions lie in the
    /// file from `linkedit_off` on, at the places that `linkedit_allocs`
    /// gives.
    #[verifier::rlimit(50)]
    pub fn update_cmds(
        &self,
        linkedit_off: u64,
        linkedit_allocs: &[(usize, usize)],
        warnings: &mut Vec<Warning>,
    ) -> (r: Vec<Vec<u8>>)
        requires
            linkedit_allocs@.len() == NUM_LINKEDIT,
        ensures
            (bytes_views(r@), final(warnings)@) == updated_cmds(
                self@,
                linkedit_off,
                linkedit_allocs@,
                old(warnings)@,
            ),
    {
        let end = self.eb.endian;
        let is64 = self.is64;
        let ghost lcs = self@.load_commands;
        let (mut existing, extra) = self.update_seg_cmds(warnings);
        let mut info_kind = LC_DYLD_INFO_ONLY;
        let mut i: usize = self.load_commands.len();
        while i > 0
            invariant
                i <= self.load_commands@.len(),
                lcs == self@.load_commands,
                end == self.eb.endian,
                info_kind == (if has_cmd_from(lcs, end, LC_DYLD_INFO, i as int) {
                    LC_DYLD_INFO
                } else {
                    LC_DYLD_INFO_ONLY
                }),
            decreases i,
        {
            i -= 1;
            assert(lcs[i as int] == self.load_commands@[i as int]@);
            if cmd_id(&self.load_commands[i], end) == LC_DYLD_INFO {
                info_kind = LC_DYLD_INFO;
            }
        }
        let bits = make_linkedit_bits(is64);
        let mut bit_cmds: Vec<Option<Vec<u8>>> = Vec::new();
        let mut k: usize = 0;
        while k < NUM_BIT_CMDS
            invariant
                k <= NUM_BIT_CMDS,
                bits@ == linkedit_bits(is64),
                linkedit_allocs@.len() == NUM_LINKEDIT,
                bit_cmds@.len() == k,
                forall|j: int|
                    0 <= j < k ==> opt_bytes(#[trigger] bit_cmds@[j]) == bit_cmd(
                        is64,
                        end,
                        j,
                        info_kind,
                        linkedit_off,
                        linkedit_allocs@,
                    ),
            decreases NUM_BIT_CMDS - k,
        {
            let c = make_bit_cmd(&bits, is64, end, k, info_kind, linkedit_off, linkedit_allocs);
            bit_cmds.push(c);
            k += 1;
        }
        assert(opt_views(bit_cmds@) =~= Seq::new(
            NUM_BIT_CMDS as nat,
            |k: int| bit_cmd(is64, end, k, info_kind, linkedit_off, linkedit_allocs@),
        ));
        let mut cmds: Vec<Vec<u8>> = Vec::new();
        let mut insert_at: Option<usize> = None;
        assert(bytes_views(cmds@) =~= Seq::empty());
        let ghost target = cmds_from(
            lcs,
            end,
            0,
            CmdsAcc {
                cmds: Seq::empty(),
                existing: opt_views(existing@),
                bit_cmds: opt_views(bit_cmds@),
                insert_at: None,
            },
        );
        let mut lci: usize = 0;
        while lci < self.load_commands.len()
            invariant
                lci <= self.load_commands@.len(),
                lcs == self@.load_commands,
                end == self.eb.endian,
                existing@.len() == self.load_commands@.len(),
                bit_cmds@.len() == NUM_BIT_CMDS,
                cmds_from(
                    lcs,
                    end,
                    lci as int,
                    CmdsAcc {
                        cmds: bytes_views(cmds@),
                        existing: opt_views(existing@),
                        bit_cmds: opt_views(bit_cmds@),
                        insert_at: match insert_at {
                            Some(a) => Some(a as int),
                            None => None,
                        },
                    },
                ) == target,
                insert_at is Some ==> insert_at->Some_0 <= cmds@.len(),
            decreases self.load_commands@.len() - lci,
        {
            let cmd = &self.load_commands[lci];
            assert(lcs[lci as int] == cmd@);
            let id = cmd_id(cmd, end);
            let is_seg = id == LC_SEGMENT || id == LC_SEGMENT_64;
            if !is_seg && insert_at.is_none() {
                insert_at = Some(cmds.len());
            }
            if is_seg {
                assert(opt_views(existing@)[lci as int] == opt_bytes(existing@[lci as int]));
                match &existing[lci] {
                    Some(c) => {
                        let copy = clone_bytes(c);
                        assert(bytes_views(cmds@.push(copy)) =~= bytes_views(cmds@).push(copy@));
                        cmds.push(copy);
                        assert(opt_views(existing@.update(lci as int, None)) =~= opt_views(
                            existing@,
                        ).update(lci as int, None));
                        existing.set(lci, None);
                    },
                    None => {},
                }
            } else {
                match bit_cmd_index(id) {
                    Some(k) => {
                        assert(opt_views(bit_cmds@)[k as int] == opt_bytes(bit_cmds@[k as int]));
                        match &bit_cmds[k] {
                            Some(c) => {
                                let copy = clone_bytes(c);
                                assert(bytes_views(cmds@.push(copy)) =~= bytes_views(cmds@).push(
                                    copy@,
                                ));
                                cmds.push(copy);
                                assert(opt_views(bit_cmds@.update(k as int, None)) =~= opt_views(
                                    bit_cmds@,
                                ).update(k as int, None));
                                bit_cmds.set(k, None);
                            },
                            None => {},
                        }
                    },
                    None => {
                        let copy = clone_bytes(cmd);
                        assert(bytes_views(cmds@.push(copy)) =~= bytes_views(cmds@).push(copy@));
                        cmds.push(copy);
                    },
                }
            }
            lci += 1;
        }
        push_somes(&bit_cmds, &mut cmds);
        let at = match insert_at {
            Some(a) => a,
            None => cmds.len(),
        };
        proof {
            lemma_somes_grows(opt_views(bit_cmds@), 0, target.cmds);
        }
        let mut result: Vec<Vec<u8>> = Vec::new();
        assert(bytes_views(result@) =~= Seq::empty());
        push_range(&cmds, 0, at, &mut result);
        let ghost r1 = bytes_views(result@);
        push_somes(&existing, &mut result);
        proof {
            lemma_somes_append(opt_views(existing@), 0, r1, Seq::empty());
        }
        push_range(&extra, 0, extra.len(), &mut result);
        push_range(&cmds, at, cmds.len(), &mut result);
        proof {
            assert(bytes_views(extra@).subrange(0, extra@.len() as int) =~= bytes_views(extra@));
            assert(bytes_views(result@) =~= bytes_views(cmds@).subrange(0, at as int) + somes_from(
                opt_views(existing@),
                0,
                Seq::empty(),
            ) + bytes_views(extra@) + bytes_views(cmds@).subrange(at as int, cmds@.len() as int));
        }
        result
    }
}

/// Gathering the entries that are there only adds to what was gathered.
proof fn lemma_somes_grows(s: Seq<Option<Seq<u8>>>, i: int, acc: Seq<Seq<u8>>)
    requires
        0 <= i,
    ensures
        somes_from(s, i, acc).len() >= acc.len(),
    decreases s.len() - i,
{
    if i < s.len() {
        lemma_somes_grows(
            s,
            i + 1,
            match s[i] {
                Some(c) => acc.push(c),
                None => acc,
            },
        );
    }
}

/// What is gathered onto a list is what is gathered onto nothing, put
/// behind that list.
proof fn lemma_somes_append(s: Seq<Option<Seq<u8>>>, i: int, a: Seq<Seq<u8>>, b: Seq<Seq<u8>>)
    requires
        0 <= i,
    ensures
        somes_from(s, i, a + b) == a + somes_from(s, i, b),
    decreases s.len() - i,
{
    if i < s.len() {
        match s[i] {
            Some(c) => {
                assert((a + b).push(c) =~= a + b.push(c));
                lemma_somes_append(s, i + 1, a, b.push(c));
            },
            None => {
                lemma_somes_append(s, i + 1, a, b);
            },
        }
    } else {
        assert(a + b =~= a + b);
    }
}

} // verus!
