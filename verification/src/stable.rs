//! Why the load commands that rewriting makes are made again unchanged:
//! the proof that an image whose commands are in order has settled commands
//! once it was rewritten.

use vstd::prelude::*;
use crate::commands::{
    CmdsAcc, NUM_BIT_CMDS, SegCmds, bit_cmd, bit_cmd_kinds, bit_fields_from, bit_index,
    cmd_id_of, cmds_from, dyld_info_kind, has_cmd_from, has_place, old_command, old_section,
    region_offset, section_record, section_records_from, seg_cmds, seg_cmds_from,
    segment_command, segment_fixed, somes_from, updated_cmds, word_bytes, zeros,
};

use crate::defs::{LC_DYLD_INFO, LC_DYLD_INFO_ONLY, LC_SEGMENT, LC_SEGMENT_64};
use crate::diag::Warning;
use crate::exec::SegmentView;
use crate::image::{MachOView, NUM_LINKEDIT, linkedit_bits};
use crate::layout::name_field;
use crate::load_commands::{section_size, segment_command_size};
use crate::util::{Endian, lemma_u32_round_trip, lemma_u64_round_trip, patched, u32_bytes};

verus! {

/// The number of sections before the `j`-th that belong to segment `segi`.
pub open spec fn rank(sections: Seq<SegmentView>, segi: usize, j: int) -> int
    decreases j,
{
    if j <= 0 {
        0
    } else {
        rank(sections, segi, j - 1) + (if sections[j - 1].seg_idx == Some(segi) {
            1int
        } else {
            0int
        })
    }
}

/// Whether every section that came from a load command stands in its
/// segment where it stood in that command.
pub open spec fn sections_in_order(sections: Seq<SegmentView>) -> bool {
    forall|j: int|
        0 <= j < sections.len() ==> match ((#[trigger] sections[j]).seg_idx, sections[j].private) {
            (Some(si), Some(p)) => p == rank(sections, si, j),
            _ => true,
        }
}

proof fn lemma_word_len(x: u64, wide: bool, end: Endian)
    ensures
        word_bytes(x, wide, end).len() == (if wide {
            8int
        } else {
            4int
        }),
{
    lemma_u64_round_trip(x, end);
    lemma_u32_round_trip(x as u32, end);
}

/// A section record is as long as its width says.
proof fn lemma_section_record_len(
    sect: SegmentView,
    segname: Seq<u8>,
    old: Option<Seq<u8>>,
    wide: bool,
    end: Endian,
)
    requires
        segname.len() == 16,
        old is Some ==> old->Some_0.len() == section_size(wide),
    ensures
        section_record(sect, segname, old, wide, end).len() == section_size(wide),
{
    lemma_word_len(sect.vmaddr, wide, end);
    lemma_word_len(sect.vmsize, wide, end);
    lemma_u32_round_trip(sect.fileoff as u32, end);
}

/// The record that is made from itself as the old record is itself.
proof fn lemma_section_record_stable(
    sect: SegmentView,
    segname: Seq<u8>,
    old: Option<Seq<u8>>,
    wide: bool,
    end: Endian,
)
    requires
        segname.len() == 16,
        old is Some ==> old->Some_0.len() == section_size(wide),
    ensures
        section_record(
            sect,
            segname,
            Some(section_record(sect, segname, old, wide, end)),
            wide,
            end,
        ) == section_record(sect, segname, old, wide, end),
{
    lemma_word_len(sect.vmaddr, wide, end);
    lemma_word_len(sect.vmsize, wide, end);
    lemma_u32_round_trip(sect.fileoff as u32, end);
    let once = section_record(sect, segname, old, wide, end);
    assert(section_record(sect, segname, Some(once), wide, end) =~= once);
}

/// The old record that is found for a section in a command has the length
/// of a record.
proof fn lemma_old_section_len(old: Option<Seq<u8>>, sect: SegmentView, wide: bool)
    ensures
        old_section(old, sect, wide) is Some ==> old_section(old, sect, wide)->Some_0.len()
            == section_size(wide),
{
}

/// The records that are made start with those that were made before, and
/// each takes the length of a record.
proof fn lemma_records_grow(
    sections: Seq<SegmentView>,
    segi: usize,
    segname: Seq<u8>,
    old: Option<Seq<u8>>,
    wide: bool,
    end: Endian,
    k: int,
    n: int,
    records: Seq<u8>,
    warnings: Seq<Warning>,
)
    requires
        0 <= k,
        segname.len() == 16,
        records.len() == n * section_size(wide),
    ensures
        ({
            let r = section_records_from(
                sections,
                segi,
                segname,
                old,
                wide,
                end,
                k,
                n,
                records,
                warnings,
            );
            &&& r.1.len() == r.0 * section_size(wide)
            &&& r.0 >= n
            &&& r.1.len() >= records.len()
            &&& r.1.subrange(0, records.len() as int) == records
        }),
    decreases sections.len() - k,
{
    let ss = section_size(wide) as int;
    if k < sections.len() {
        if sections[k].seg_idx != Some(segi) {
            lemma_records_grow(sections, segi, segname, old, wide, end, k + 1, n, records, warnings);
        } else {
            let sect = sections[k];
            let rec = section_record(sect, segname, old_section(old, sect, wide), wide, end);
            lemma_old_section_len(old, sect, wide);
            lemma_section_record_len(sect, segname, old_section(old, sect, wide), wide, end);
            let w1 = if crate::layout::name_too_long(sect.name) {
                warnings.push(Warning::SectionNameTooLong)
            } else {
                warnings
            };
            let w2 = if sect.filesize != sect.vmsize && sect.filesize != 0 {
                w1.push(Warning::SectionSizeMismatch)
            } else {
                w1
            };
            vstd::arithmetic::mul::lemma_mul_is_distributive_add_other_way(ss, n, 1);
            lemma_records_grow(sections, segi, segname, old, wide, end, k + 1, n + 1, records + rec, w2);
            let r = section_records_from(
                sections,
                segi,
                segname,
                old,
                wide,
                end,
                k + 1,
                n + 1,
                records + rec,
                w2,
            );
            assert(r.1.subrange(0, records.len() as int) =~= r.1.subrange(
                0,
                (records + rec).len() as int,
            ).subrange(0, records.len() as int));
            assert((records + rec).subrange(0, records.len() as int) =~= records);
        }
    } else {
        assert(records.subrange(0, records.len() as int) =~= records);
    }
}

/// The records that are made do not depend on the old command when the old
/// command is the very command that they are part of: a command made from
/// itself has the same records.
#[verifier::rlimit(50)]
proof fn lemma_records_stable(
    sections: Seq<SegmentView>,
    segi: usize,
    segname: Seq<u8>,
    old: Option<Seq<u8>>,
    made: Seq<u8>,
    wide: bool,
    end: Endian,
    k: int,
    n: int,
    records: Seq<u8>,
    w1: Seq<Warning>,
    w2: Seq<Warning>,
)
    requires
        0 <= k,
        0 <= n,
        segname.len() == 16,
        sections_in_order(sections),
        k <= sections.len() ==> n == rank(sections, segi, k),
        records.len() == n * section_size(wide),
        made.len() == segment_command_size(wide) + section_records_from(
            sections,
            segi,
            segname,
            old,
            wide,
            end,
            k,
            n,
            records,
            w1,
        ).1.len(),
        made.subrange(segment_command_size(wide) as int, made.len() as int)
            == section_records_from(sections, segi, segname, old, wide, end, k, n, records, w1).1,
    ensures
        section_records_from(sections, segi, segname, Some(made), wide, end, k, n, records, w2).0
            == section_records_from(sections, segi, segname, old, wide, end, k, n, records, w1).0,
        section_records_from(sections, segi, segname, Some(made), wide, end, k, n, records, w2).1
            == section_records_from(sections, segi, segname, old, wide, end, k, n, records, w1).1,
    decreases sections.len() - k,
{
    let ss = section_size(wide) as int;
    let sc = segment_command_size(wide) as int;
    if k < sections.len() {
        if sections[k].seg_idx != Some(segi) {
            lemma_records_stable(
                sections,
                segi,
                segname,
                old,
                made,
                wide,
                end,
                k + 1,
                n,
                records,
                w1,
                w2,
            );
        } else {
            let sect = sections[k];
            let old_rec = old_section(old, sect, wide);
            let rec = section_record(sect, segname, old_rec, wide, end);
            lemma_old_section_len(old, sect, wide);
            lemma_section_record_len(sect, segname, old_rec, wide, end);
            let w1a = if crate::layout::name_too_long(sect.name) {
                w1.push(Warning::SectionNameTooLong)
            } else {
                w1
            };
            let w1b = if sect.filesize != sect.vmsize && sect.filesize != 0 {
                w1a.push(Warning::SectionSizeMismatch)
            } else {
                w1a
            };
            let w2a = if crate::layout::name_too_long(sect.name) {
                w2.push(Warning::SectionNameTooLong)
            } else {
                w2
            };
            let w2b = if sect.filesize != sect.vmsize && sect.filesize != 0 {
                w2a.push(Warning::SectionSizeMismatch)
            } else {
                w2a
            };
            vstd::arithmetic::mul::lemma_mul_is_distributive_add_other_way(ss, n, 1);
            let full = section_records_from(
                sections,
                segi,
                segname,
                old,
                wide,
                end,
                k + 1,
                n + 1,
                records + rec,
                w1b,
            ).1;
            lemma_records_grow(
                sections,
                segi,
                segname,
                old,
                wide,
                end,
                k + 1,
                n + 1,
                records + rec,
                w1b,
            );
            // The record of this section stands in the command that was made.
            assert(full.subrange(n * ss, n * ss + ss) =~= rec) by {
                assert(full.subrange(0, (records + rec).len() as int) == records + rec);
                assert(full.subrange(n * ss, n * ss + ss) =~= full.subrange(
                    0,
                    (records + rec).len() as int,
                ).subrange(n * ss, n * ss + ss));
                assert((records + rec).subrange(n * ss, n * ss + ss) =~= rec);
            }
            let new_old = old_section(Some(made), sect, wide);
            let new_rec = section_record(sect, segname, new_old, wide, end);
            assert(new_rec == rec) by {
                match sect.private {
                    Some(p) => {
                        assert(p == n);
                        assert(made.subrange(sc + n * ss, sc + n * ss + ss) =~= made.subrange(
                            sc,
                            made.len() as int,
                        ).subrange(n * ss, n * ss + ss));
                        assert(new_old == Some(rec));
                        lemma_section_record_stable(sect, segname, old_rec, wide, end);
                    },
                    None => {},
                }
            }
            assert(rank(sections, segi, k + 1) == n + 1);
            lemma_records_stable(
                sections,
                segi,
                segname,
                old,
                made,
                wide,
                end,
                k + 1,
                n + 1,
                records + rec,
                w1b,
                w2b,
            );
        }
    }
}

/// The records that are made do not depend on the warnings so far.
proof fn lemma_records_any_warnings(
    sections: Seq<SegmentView>,
    segi: usize,
    segname: Seq<u8>,
    old: Option<Seq<u8>>,
    wide: bool,
    end: Endian,
    k: int,
    n: int,
    records: Seq<u8>,
    w1: Seq<Warning>,
    w2: Seq<Warning>,
)
    requires
        0 <= k,
    ensures
        section_records_from(sections, segi, segname, old, wide, end, k, n, records, w1).0
            == section_records_from(sections, segi, segname, old, wide, end, k, n, records, w2).0,
        section_records_from(sections, segi, segname, old, wide, end, k, n, records, w1).1
            == section_records_from(sections, segi, segname, old, wide, end, k, n, records, w2).1,
    decreases sections.len() - k,
{
    if k < sections.len() {
        if sections[k].seg_idx != Some(segi) {
            lemma_records_any_warnings(
                sections,
                segi,
                segname,
                old,
                wide,
                end,
                k + 1,
                n,
                records,
                w1,
                w2,
            );
        } else {
            let sect = sections[k];
            let rec = section_record(sect, segname, old_section(old, sect, wide), wide, end);
            let w1a = if crate::layout::name_too_long(sect.name) {
                w1.push(Warning::SectionNameTooLong)
            } else {
                w1
            };
            let w1b = if sect.filesize != sect.vmsize && sect.filesize != 0 {
                w1a.push(Warning::SectionSizeMismatch)
            } else {
                w1a
            };
            let w2a = if crate::layout::name_too_long(sect.name) {
                w2.push(Warning::SectionNameTooLong)
            } else {
                w2
            };
            let w2b = if sect.filesize != sect.vmsize && sect.filesize != 0 {
                w2a.push(Warning::SectionSizeMismatch)
            } else {
                w2a
            };
            lemma_records_any_warnings(
                sections,
                segi,
                segname,
                old,
                wide,
                end,
                k + 1,
                n + 1,
                records + rec,
                w1b,
                w2b,
            );
        }
    }
}

/// The command of a segment does not depend on the warnings so far.
pub proof fn lemma_segment_command_any_warnings(
    m: MachOView,
    segi: usize,
    w1: Seq<Warning>,
    w2: Seq<Warning>,
)
    ensures
        segment_command(m, segi, w1).0 == segment_command(m, segi, w2).0,
{
    let seg = m.segments[segi as int];
    let old = old_command(m.load_commands, seg, m.is64);
    let w1a = if crate::layout::name_too_long(seg.name) {
        w1.push(Warning::SegmentNameTooLong)
    } else {
        w1
    };
    let w2a = if crate::layout::name_too_long(seg.name) {
        w2.push(Warning::SegmentNameTooLong)
    } else {
        w2
    };
    lemma_records_any_warnings(
        m.sections,
        segi,
        name_field(seg.name),
        old,
        m.is64,
        m.endian,
        0,
        0,
        Seq::empty(),
        w1a,
        w2a,
    );
}

/// The fixed part of a segment command is as long as its width says, and
/// starts with the kind of the command.
proof fn lemma_segment_fixed(
    seg: SegmentView,
    old: Option<Seq<u8>>,
    nsects: int,
    wide: bool,
    end: Endian,
)
    requires
        old is Some ==> old->Some_0.len() >= segment_command_size(wide),
    ensures
        segment_fixed(seg, old, nsects, wide, end).len() == segment_command_size(wide),
        segment_fixed(seg, old, nsects, wide, end).subrange(0, 4) == u32_bytes(
            if wide {
                LC_SEGMENT_64
            } else {
                LC_SEGMENT
            },
            end,
        ),
{
    lemma_word_len(seg.vmaddr, wide, end);
    lemma_word_len(seg.vmsize, wide, end);
    lemma_word_len(seg.fileoff, wide, end);
    lemma_word_len(seg.filesize, wide, end);
    lemma_u32_round_trip(
        if wide {
            LC_SEGMENT_64
        } else {
            LC_SEGMENT
        },
        end,
    );
    lemma_u32_round_trip(
        (segment_command_size(wide) + nsects * section_size(wide)) as u32,
        end,
    );
    lemma_u32_round_trip(7, end);
    lemma_u32_round_trip(crate::commands::prot_bits(seg.prot), end);
    lemma_u32_round_trip(nsects as u32, end);
    assert(segment_fixed(seg, old, nsects, wide, end).subrange(0, 4) =~= u32_bytes(
        if wide {
            LC_SEGMENT_64
        } else {
            LC_SEGMENT
        },
        end,
    ));
}

/// The fixed part that is made from a command that starts with it is
/// itself.
proof fn lemma_segment_fixed_stable(
    seg: SegmentView,
    old: Option<Seq<u8>>,
    nsects: int,
    wide: bool,
    end: Endian,
    rest: Seq<u8>,
)
    requires
        old is Some ==> old->Some_0.len() >= segment_command_size(wide),
    ensures
        segment_fixed(
            seg,
            Some(segment_fixed(seg, old, nsects, wide, end) + rest),
            nsects,
            wide,
            end,
        ) == segment_fixed(seg, old, nsects, wide, end),
{
    lemma_segment_fixed(seg, old, nsects, wide, end);
    lemma_word_len(seg.vmaddr, wide, end);
    lemma_word_len(seg.vmsize, wide, end);
    lemma_word_len(seg.fileoff, wide, end);
    lemma_word_len(seg.filesize, wide, end);
    lemma_u32_round_trip(
        if wide {
            LC_SEGMENT_64
        } else {
            LC_SEGMENT
        },
        end,
    );
    lemma_u32_round_trip(
        (segment_command_size(wide) + nsects * section_size(wide)) as u32,
        end,
    );
    lemma_u32_round_trip(7, end);
    lemma_u32_round_trip(crate::commands::prot_bits(seg.prot), end);
    lemma_u32_round_trip(nsects as u32, end);
    let once = segment_fixed(seg, old, nsects, wide, end);
    assert(segment_fixed(seg, Some(once + rest), nsects, wide, end) =~= once);
}

/// Whether two segments differ in nothing but the bytes they hold.
pub open spec fn same_but_data(a: SegmentView, b: SegmentView) -> bool {
    b == (SegmentView { data: b.data, ..a })
}

/// The command of a segment is made again unchanged from an image that
/// holds it as the command the segment came from.
#[verifier::rlimit(50)]
pub proof fn lemma_segment_command_stable(
    a: MachOView,
    b: MachOView,
    i: usize,
    w1: Seq<Warning>,
    w2: Seq<Warning>,
)
    requires
        i < a.segments.len(),
        a.segments.len() == b.segments.len(),
        same_but_data(a.segments[i as int], b.segments[i as int]),
        b.sections == a.sections,
        b.is64 == a.is64,
        b.endian == a.endian,
        sections_in_order(a.sections),
        a.segments[i as int].private == Some(i),
        i < b.load_commands.len(),
        b.load_commands[i as int] == segment_command(a, i, w1).0,
        old_command(a.load_commands, a.segments[i as int], a.is64) is Some,
    ensures
        segment_command(b, i, w2).0 == segment_command(a, i, w1).0,
{
    let wide = a.is64;
    let end = a.endian;
    let seg = a.segments[i as int];
    let seg_b = b.segments[i as int];
    let old = old_command(a.load_commands, seg, wide);
    let segname = name_field(seg.name);
    let w1a = if crate::layout::name_too_long(seg.name) {
        w1.push(Warning::SegmentNameTooLong)
    } else {
        w1
    };
    let w2a = if crate::layout::name_too_long(seg.name) {
        w2.push(Warning::SegmentNameTooLong)
    } else {
        w2
    };
    let r = section_records_from(a.sections, i, segname, old, wide, end, 0, 0, Seq::empty(), w1a);
    let fixed = segment_fixed(seg, old, r.0, wide, end);
    let made = fixed + r.1;
    assert(made == segment_command(a, i, w1).0);
    lemma_segment_fixed(seg, old, r.0, wide, end);
    assert(made.subrange(segment_command_size(wide) as int, made.len() as int) =~= r.1);
    assert(old_command(b.load_commands, seg_b, wide) == Some(made));
    lemma_records_stable(
        a.sections,
        i,
        segname,
        old,
        made,
        wide,
        end,
        0,
        0,
        Seq::empty(),
        w1a,
        w2a,
    );
    lemma_segment_fixed_stable(seg, old, r.0, wide, end, r.1);
    assert(segment_fixed(seg_b, Some(made), r.0, wide, end) == segment_fixed(
        seg,
        Some(made),
        r.0,
        wide,
        end,
    ));
}

/// Whether a kind of command is that of a segment.
pub open spec fn is_segment_id(id: u32) -> bool {
    id == LC_SEGMENT || id == LC_SEGMENT_64
}

/// Whether the load commands of an image are in order: the commands of its
/// segments come first, one for each segment and in the order of the
/// segments, each with its fixed part whole; and every section that came from
/// a command stands in its segment where it stood in the command.
pub open spec fn commands_in_order(m: MachOView) -> bool {
    &&& m.segments.len() <= m.load_commands.len()
    &&& m.segments.len() <= usize::MAX
    &&& forall|i: int|
        0 <= i < m.segments.len() ==> is_segment_id(
            cmd_id_of(#[trigger] m.load_commands[i], m.endian),
        ) && m.load_commands[i].len() >= segment_command_size(m.is64)
    &&& forall|i: int|
        0 <= i < m.segments.len() ==> (#[trigger] m.segments[i]).private == Some(i as usize)
    &&& forall|i: int|
        m.segments.len() <= i < m.load_commands.len() ==> !is_segment_id(
            cmd_id_of(#[trigger] m.load_commands[i], m.endian),
        )
    &&& sections_in_order(m.sections)
}

/// The commands of the segments of an image, in the order of the segments.
pub open spec fn segment_commands(m: MachOView) -> Seq<Seq<u8>> {
    Seq::new(m.segments.len(), |i: int| segment_command(m, i as usize, Seq::empty()).0)
}

/// The commands of the segments from the `from`-th on, each at the place
/// of the command its segment came from.
pub open spec fn placed_from(m: MachOView, from: int) -> Seq<Option<Seq<u8>>> {
    Seq::new(
        m.load_commands.len(),
        |i: int|
            if from <= i < m.segments.len() {
                Some(segment_commands(m)[i])
            } else {
                None
            },
    )
}

/// The commands of the segments up to the `to`-th, each at the place of the
/// command its segment came from.
pub open spec fn placed_to(m: MachOView, to: int) -> Seq<Option<Seq<u8>>> {
    Seq::new(
        m.load_commands.len(),
        |i: int|
            if 0 <= i < to && i < m.segments.len() {
                Some(segment_commands(m)[i])
            } else {
                None
            },
    )
}

proof fn lemma_seg_cmds_from(m: MachOView, segi: int, acc: SegCmds)
    requires
        commands_in_order(m),
        0 <= segi <= m.segments.len(),
        acc.existing == placed_to(m, segi),
        acc.extra == Seq::<Seq<u8>>::empty(),
    ensures
        seg_cmds_from(m, segi, acc).existing == placed_from(m, 0),
        seg_cmds_from(m, segi, acc).extra == Seq::<Seq<u8>>::empty(),
    decreases m.segments.len() - segi,
{
    if segi < m.segments.len() {
        let seg = m.segments[segi];
        let c = segment_command(m, segi as usize, acc.warnings);
        lemma_segment_command_any_warnings(m, segi as usize, acc.warnings, Seq::empty());
        assert(has_place(m, seg));
        let next = SegCmds {
            existing: acc.existing.update(seg.private->Some_0 as int, Some(c.0)),
            warnings: c.1,
            ..acc
        };
        assert(next.existing =~= placed_to(m, segi + 1));
        lemma_seg_cmds_from(m, segi + 1, next);
    } else {
        assert(placed_to(m, segi) =~= placed_from(m, 0));
    }
}

/// In an image whose commands are in order every segment has its command
/// at the place of the command it came from, and no segment is new.
pub proof fn lemma_seg_cmds(m: MachOView, warnings: Seq<Warning>)
    requires
        commands_in_order(m),
    ensures
        seg_cmds(m, warnings).existing == placed_from(m, 0),
        seg_cmds(m, warnings).extra == Seq::<Seq<u8>>::empty(),
{
    let start = SegCmds {
        existing: Seq::new(m.load_commands.len(), |i: int| None::<Seq<u8>>),
        extra: Seq::empty(),
        warnings,
    };
    assert(start.existing =~= placed_to(m, 0));
    lemma_seg_cmds_from(m, 0, start);
}

/// What going through one command of a list a second time makes of the
/// link-edit commands that are still to be placed: a command that describes
/// link-edit regions must be the one that is waiting for its kind, and is
/// taken. `None` says that the list cannot have been made that way.
pub open spec fn tail_step(s: Seq<Option<Seq<u8>>>, e: Seq<u8>, end: Endian) -> Option<
    Seq<Option<Seq<u8>>>,
> {
    let id = cmd_id_of(e, end);
    if is_segment_id(id) {
        None
    } else {
        match bit_index(id) {
            None => Some(s),
            Some(kk) => if s[kk] == Some(e) {
                Some(s.update(kk, None))
            } else {
                None
            },
        }
    }
}

/// What going through the commands from `from` up to `to` makes of the
/// link-edit commands that are to be placed.
pub open spec fn tail_state(
    cmds: Seq<Seq<u8>>,
    end: Endian,
    from: int,
    to: int,
    start: Seq<Option<Seq<u8>>>,
) -> Option<Seq<Option<Seq<u8>>>>
    decreases to - from,
{
    if to <= from {
        Some(start)
    } else {
        match tail_state(cmds, end, from, to - 1, start) {
            Some(s) => tail_step(s, cmds[to - 1], end),
            None => None,
        }
    }
}

proof fn lemma_tail_state_push(
    cmds: Seq<Seq<u8>>,
    x: Seq<u8>,
    end: Endian,
    from: int,
    to: int,
    start: Seq<Option<Seq<u8>>>,
)
    requires
        0 <= from,
        to <= cmds.len(),
    ensures
        tail_state(cmds.push(x), end, from, to, start) == tail_state(cmds, end, from, to, start),
    decreases to - from,
{
    if to > from {
        lemma_tail_state_push(cmds, x, end, from, to - 1, start);
        assert(cmds.push(x)[to - 1] == cmds[to - 1]);
    }
}

/// Whether every link-edit command that is there has the kind of its
/// place.
pub open spec fn kinds_match(b: Seq<Option<Seq<u8>>>, end: Endian) -> bool {
    &&& b.len() == NUM_BIT_CMDS
    &&& forall|kk: int|
        0 <= kk < NUM_BIT_CMDS && (#[trigger] b[kk]) is Some ==> bit_index(
            cmd_id_of(b[kk]->Some_0, end),
        ) == Some(kk) && !is_segment_id(cmd_id_of(b[kk]->Some_0, end))
}

/// Whether `s` is `b` with some of its commands taken.
pub open spec fn taken_from(s: Seq<Option<Seq<u8>>>, b: Seq<Option<Seq<u8>>>) -> bool {
    &&& s.len() == b.len()
    &&& forall|kk: int| 0 <= kk < s.len() ==> (#[trigger] s[kk]) == b[kk] || s[kk] is None
}

/// The list that is made from commands that are no segment commands can
/// be gone through again, and what is then left to place is what was left
/// when it was made.
#[verifier::rlimit(50)]
proof fn lemma_tail_made(
    lcs: Seq<Seq<u8>>,
    end: Endian,
    j: int,
    acc: CmdsAcc,
    k: int,
    b: Seq<Option<Seq<u8>>>,
)
    requires
        0 <= k <= j,
        forall|i: int| j <= i < lcs.len() ==> !is_segment_id(cmd_id_of(#[trigger] lcs[i], end)),
        acc.cmds.len() >= k,
        kinds_match(b, end),
        taken_from(acc.bit_cmds, b),
        tail_state(acc.cmds, end, k, acc.cmds.len() as int, b) == Some(acc.bit_cmds),
        acc.insert_at is Some ==> 0 <= acc.insert_at->Some_0 <= acc.cmds.len(),
    ensures
        ({
            let r = cmds_from(lcs, end, j, acc);
            &&& tail_state(r.cmds, end, k, r.cmds.len() as int, b) == Some(r.bit_cmds)
            &&& taken_from(r.bit_cmds, b)
            &&& r.cmds.len() >= acc.cmds.len()
            &&& r.cmds.subrange(0, k) == acc.cmds.subrange(0, k)
            &&& r.existing == acc.existing
            &&& r.insert_at is Some ==> 0 <= r.insert_at->Some_0 <= r.cmds.len()
        }),
    decreases lcs.len() - j,
{
    if j < lcs.len() {
        let id = cmd_id_of(lcs[j], end);
        let acc1 = if acc.insert_at is None {
            CmdsAcc { insert_at: Some(acc.cmds.len() as int), ..acc }
        } else {
            acc
        };
        let acc2 = match bit_index(id) {
            Some(kk) => match acc1.bit_cmds[kk] {
                Some(c) => CmdsAcc {
                    cmds: acc1.cmds.push(c),
                    bit_cmds: acc1.bit_cmds.update(kk, None),
                    ..acc1
                },
                None => acc1,
            },
            None => CmdsAcc { cmds: acc1.cmds.push(lcs[j]), ..acc1 },
        };
        assert(acc2.cmds.len() >= k);
        assert(tail_state(acc2.cmds, end, k, acc2.cmds.len() as int, b) == Some(acc2.bit_cmds)
            && taken_from(acc2.bit_cmds, b) && acc2.cmds.subrange(0, k) == acc.cmds.subrange(0, k))
            by {
            match bit_index(id) {
                Some(kk) => match acc1.bit_cmds[kk] {
                    Some(c) => {
                        lemma_tail_state_push(acc1.cmds, c, end, k, acc1.cmds.len() as int, b);
                        assert(acc1.bit_cmds[kk] == b[kk]);
                        assert(acc2.cmds[acc2.cmds.len() - 1] == c);
                        assert(acc2.cmds.subrange(0, k) =~= acc.cmds.subrange(0, k));
                    },
                    None => {},
                },
                None => {
                    lemma_tail_state_push(acc1.cmds, lcs[j], end, k, acc1.cmds.len() as int, b);
                    assert(acc2.cmds[acc2.cmds.len() - 1] == lcs[j]);
                    assert(acc2.cmds.subrange(0, k) =~= acc.cmds.subrange(0, k));
                },
            }
        }
        lemma_tail_made(lcs, end, j + 1, acc2, k, b);
    }
}

/// `s` without the commands before the `i`-th.
pub open spec fn without_first(s: Seq<Option<Seq<u8>>>, i: int) -> Seq<Option<Seq<u8>>> {
    Seq::new(
        s.len(),
        |kk: int|
            if kk < i {
                None
            } else {
                s[kk]
            },
    )
}

/// The list with the link-edit commands that were left put behind it can
/// be gone through again, and then nothing is left to place.
proof fn lemma_leftover(
    s: Seq<Option<Seq<u8>>>,
    i: int,
    cmds: Seq<Seq<u8>>,
    end: Endian,
    k: int,
    b: Seq<Option<Seq<u8>>>,
)
    requires
        0 <= k <= cmds.len(),
        0 <= i <= s.len(),
        kinds_match(b, end),
        taken_from(s, b),
        tail_state(cmds, end, k, cmds.len() as int, b) == Some(without_first(s, i)),
    ensures
        ({
            let r = somes_from(s, i, cmds);
            &&& tail_state(r, end, k, r.len() as int, b) == Some(without_first(s, s.len() as int))
            &&& r.len() >= cmds.len()
            &&& r.subrange(0, k) == cmds.subrange(0, k)
        }),
    decreases s.len() - i,
{
    if i < s.len() {
        match s[i] {
            Some(c) => {
                lemma_tail_state_push(cmds, c, end, k, cmds.len() as int, b);
                let next = cmds.push(c);
                assert(next[next.len() - 1] == c);
                assert(s[i] == b[i]);
                assert(without_first(s, i)[i] == Some(c));
                assert(without_first(s, i).update(i, None) =~= without_first(s, i + 1));
                lemma_leftover(s, i + 1, next, end, k, b);
                assert(next.subrange(0, k) =~= cmds.subrange(0, k));
            },
            None => {
                assert(without_first(s, i) =~= without_first(s, i + 1));
                lemma_leftover(s, i + 1, cmds, end, k, b);
            },
        }
    }
}

/// A list that can be gone through up to `to` can be gone through up to
/// any place before.
proof fn lemma_tail_state_before(
    cmds: Seq<Seq<u8>>,
    end: Endian,
    from: int,
    to: int,
    at: int,
    start: Seq<Option<Seq<u8>>>,
)
    requires
        from <= at <= to,
        tail_state(cmds, end, from, to, start) is Some,
    ensures
        tail_state(cmds, end, from, at, start) is Some,
    decreases to - at,
{
    if at < to {
        lemma_tail_state_before(cmds, end, from, to, at + 1, start);
    }
}

/// Going through a list that can be gone through again makes the same
/// list.
proof fn lemma_replay(
    n: Seq<Seq<u8>>,
    end: Endian,
    j: int,
    acc: CmdsAcc,
    k: int,
    b: Seq<Option<Seq<u8>>>,
)
    requires
        0 <= k <= j <= n.len(),
        tail_state(n, end, k, n.len() as int, b) is Some,
        tail_state(n, end, k, j, b) == Some(acc.bit_cmds),
        acc.cmds == n.subrange(0, j),
        acc.insert_at is Some ==> 0 <= acc.insert_at->Some_0 <= acc.cmds.len(),
    ensures
        ({
            let r = cmds_from(n, end, j, acc);
            &&& r.cmds == n
            &&& Some(r.bit_cmds) == tail_state(n, end, k, n.len() as int, b)
            &&& r.existing == acc.existing
            &&& r.insert_at is Some ==> 0 <= r.insert_at->Some_0 <= r.cmds.len()
        }),
    decreases n.len() - j,
{
    if j < n.len() {
        lemma_tail_state_before(n, end, k, n.len() as int, j + 1, b);
        let id = cmd_id_of(n[j], end);
        let step = tail_step(acc.bit_cmds, n[j], end);
        assert(tail_state(n, end, k, j + 1, b) == step);
        let acc1 = if acc.insert_at is None {
            CmdsAcc { insert_at: Some(acc.cmds.len() as int), ..acc }
        } else {
            acc
        };
        let acc2 = match bit_index(id) {
            Some(kk) => match acc1.bit_cmds[kk] {
                Some(c) => CmdsAcc {
                    cmds: acc1.cmds.push(c),
                    bit_cmds: acc1.bit_cmds.update(kk, None),
                    ..acc1
                },
                None => acc1,
            },
            None => CmdsAcc { cmds: acc1.cmds.push(n[j]), ..acc1 },
        };
        assert(acc2.cmds =~= n.subrange(0, j + 1));
        lemma_replay(n, end, j + 1, acc2, k, b);
    } else {
        assert(n.subrange(0, j) =~= n);
    }
}

/// Going through the segment commands at the head of a list takes each
/// segment's command from its place.
proof fn lemma_segments_first(
    lcs: Seq<Seq<u8>>,
    end: Endian,
    i: int,
    acc: CmdsAcc,
    segs: Seq<Seq<u8>>,
)
    requires
        0 <= i <= segs.len() <= lcs.len(),
        forall|t: int| 0 <= t < segs.len() ==> is_segment_id(cmd_id_of(#[trigger] lcs[t], end)),
        acc.cmds == segs.subrange(0, i),
        acc.existing == Seq::new(
            lcs.len(),
            |t: int|
                if i <= t < segs.len() {
                    Some(segs[t])
                } else {
                    None
                },
        ),
        acc.insert_at is None,
    ensures
        cmds_from(lcs, end, i, acc) == cmds_from(
            lcs,
            end,
            segs.len() as int,
            CmdsAcc {
                cmds: segs,
                existing: Seq::new(lcs.len(), |t: int| None::<Seq<u8>>),
                bit_cmds: acc.bit_cmds,
                insert_at: None,
            },
        ),
    decreases segs.len() - i,
{
    if i < segs.len() {
        let next = CmdsAcc {
            cmds: acc.cmds.push(segs[i]),
            existing: acc.existing.update(i, None),
            ..acc
        };
        assert(next.cmds =~= segs.subrange(0, i + 1));
        assert(next.existing =~= Seq::new(
            lcs.len(),
            |t: int|
                if i + 1 <= t < segs.len() {
                    Some(segs[t])
                } else {
                    None
                },
        ));
        lemma_segments_first(lcs, end, i + 1, next, segs);
    } else {
        assert(acc.cmds =~= segs);
        assert(acc.existing =~= Seq::new(lcs.len(), |t: int| None::<Seq<u8>>));
    }
}

/// The fields of the registry lie behind the header of their command and
/// within its record.
proof fn lemma_registry_fields(is64: bool, i: int, k: int)
    requires
        0 <= i < NUM_LINKEDIT,
        0 <= k < NUM_BIT_CMDS,
        linkedit_bits(is64)[i].cmd_id == bit_cmd_kinds()[k].0,
    ensures
        8 <= linkedit_bits(is64)[i].cmd_off_field_off,
        linkedit_bits(is64)[i].cmd_off_field_off + 4 <= bit_cmd_kinds()[k].1,
        8 <= linkedit_bits(is64)[i].cmd_count_field_off,
        linkedit_bits(is64)[i].cmd_count_field_off + 4 <= bit_cmd_kinds()[k].1,
{
}

/// Writing the fields of the regions into a command leaves its header and
/// its length as they are, and whether a region holds anything does not
/// depend on the command.
proof fn lemma_bit_fields(
    is64: bool,
    end: Endian,
    k: int,
    linkedit_off: u64,
    allocs: Seq<(usize, usize)>,
    i: int,
    buf: Seq<u8>,
    other: Seq<u8>,
    got_any: bool,
)
    requires
        0 <= i,
        0 <= k < NUM_BIT_CMDS,
        buf.len() == bit_cmd_kinds()[k].1,
    ensures
        ({
            let r = bit_fields_from(
                is64,
                end,
                bit_cmd_kinds()[k].0,
                linkedit_off,
                allocs,
                i,
                buf,
                got_any,
            );
            &&& r.0.len() == buf.len()
            &&& r.0.subrange(0, 8) == buf.subrange(0, 8)
            &&& r.1 == bit_fields_from(
                is64,
                end,
                bit_cmd_kinds()[k].0,
                linkedit_off,
                allocs,
                i,
                other,
                got_any,
            ).1
        }),
    decreases NUM_LINKEDIT - i,
{
    let cmd = bit_cmd_kinds()[k].0;
    if i < NUM_LINKEDIT {
        let fb = linkedit_bits(is64)[i];
        if cmd != fb.cmd_id {
            lemma_bit_fields(is64, end, k, linkedit_off, allocs, i + 1, buf, other, got_any);
        } else {
            lemma_registry_fields(is64, i, k);
            let off = region_offset(fb, linkedit_off, allocs[i]);
            let count = allocs[i].1 as int / fb.elm_size as int;
            lemma_u32_round_trip(off as u32, end);
            lemma_u32_round_trip(count as u32, end);
            let b1 = patched(buf, fb.cmd_off_field_off as int, u32_bytes(off as u32, end));
            let b2 = patched(b1, fb.cmd_count_field_off as int, u32_bytes(count as u32, end));
            let o1 = patched(other, fb.cmd_off_field_off as int, u32_bytes(off as u32, end));
            let o2 = patched(o1, fb.cmd_count_field_off as int, u32_bytes(count as u32, end));
            assert(b2.len() == buf.len());
            assert(b2.subrange(0, 8) =~= buf.subrange(0, 8));
            lemma_bit_fields(
                is64,
                end,
                k,
                linkedit_off,
                allocs,
                i + 1,
                b2,
                o2,
                got_any || allocs[i].1 > 0,
            );
        }
    }
}

/// The link-edit commands that are made for an image.
pub open spec fn bit_cmds_made(
    is64: bool,
    end: Endian,
    info_kind: u32,
    linkedit_off: u64,
    allocs: Seq<(usize, usize)>,
) -> Seq<Option<Seq<u8>>> {
    Seq::new(
        NUM_BIT_CMDS as nat,
        |k: int| bit_cmd(is64, end, k, info_kind, linkedit_off, allocs),
    )
}

/// The kind of a link-edit command that is made is the kind it was made
/// for; the dyld info has the kind that was chosen for it.
proof fn lemma_bit_cmd_kind(
    is64: bool,
    end: Endian,
    k: int,
    info_kind: u32,
    linkedit_off: u64,
    allocs: Seq<(usize, usize)>,
)
    requires
        0 <= k < NUM_BIT_CMDS,
    ensures
        bit_cmd(is64, end, k, info_kind, linkedit_off, allocs) is Some ==> cmd_id_of(
            bit_cmd(is64, end, k, info_kind, linkedit_off, allocs)->Some_0,
            end,
        ) == (if k == 0 {
            info_kind
        } else {
            bit_cmd_kinds()[k].0
        }),
{
    let (cmd, cmdsize) = bit_cmd_kinds()[k];
    let id = if cmd == LC_DYLD_INFO {
        info_kind
    } else {
        cmd
    };
    let header = u32_bytes(id, end) + u32_bytes(cmdsize as u32, end) + zeros((cmdsize - 8) as nat);
    lemma_u32_round_trip(id, end);
    lemma_u32_round_trip(cmdsize as u32, end);
    lemma_bit_fields(is64, end, k, linkedit_off, allocs, 0, header, header, false);
    let r = bit_fields_from(is64, end, cmd, linkedit_off, allocs, 0, header, false);
    assert(r.0.subrange(0, 4) =~= r.0.subrange(0, 8).subrange(0, 4));
    assert(header.subrange(0, 8).subrange(0, 4) =~= u32_bytes(id, end));
}

/// The link-edit commands that are made have the kinds of their places.
proof fn lemma_bit_cmds_kinds(
    is64: bool,
    end: Endian,
    info_kind: u32,
    linkedit_off: u64,
    allocs: Seq<(usize, usize)>,
)
    requires
        info_kind == LC_DYLD_INFO || info_kind == LC_DYLD_INFO_ONLY,
    ensures
        kinds_match(bit_cmds_made(is64, end, info_kind, linkedit_off, allocs), end),
{
    let b = bit_cmds_made(is64, end, info_kind, linkedit_off, allocs);
    assert forall|kk: int| 0 <= kk < NUM_BIT_CMDS && (#[trigger] b[kk]) is Some implies bit_index(
        cmd_id_of(b[kk]->Some_0, end),
    ) == Some(kk) && !is_segment_id(cmd_id_of(b[kk]->Some_0, end)) by {
        lemma_bit_cmd_kind(is64, end, kk, info_kind, linkedit_off, allocs);
    }
}

/// Whether the dyld info is there does not depend on the kind that is
/// chosen for it, and no other link-edit command does.
proof fn lemma_bit_cmds_other_kind(
    is64: bool,
    end: Endian,
    info1: u32,
    info2: u32,
    linkedit_off: u64,
    allocs: Seq<(usize, usize)>,
)
    ensures
        forall|k: int|
            1 <= k < NUM_BIT_CMDS ==> bit_cmd(is64, end, k, info1, linkedit_off, allocs)
                == bit_cmd(is64, end, k, info2, linkedit_off, allocs),
        bit_cmd(is64, end, 0, info1, linkedit_off, allocs) is None <==> bit_cmd(
            is64,
            end,
            0,
            info2,
            linkedit_off,
            allocs,
        ) is None,
{
    let (cmd, cmdsize) = bit_cmd_kinds()[0];
    let h1 = u32_bytes(info1, end) + u32_bytes(cmdsize as u32, end) + zeros((cmdsize - 8) as nat);
    let h2 = u32_bytes(info2, end) + u32_bytes(cmdsize as u32, end) + zeros((cmdsize - 8) as nat);
    lemma_u32_round_trip(info1, end);
    lemma_u32_round_trip(info2, end);
    lemma_u32_round_trip(cmdsize as u32, end);
    lemma_bit_fields(is64, end, 0, linkedit_off, allocs, 0, h1, h2, false);
}

/// Going through nothing but empty places adds nothing.
proof fn lemma_somes_of_nones(s: Seq<Option<Seq<u8>>>, i: int, acc: Seq<Seq<u8>>)
    requires
        0 <= i,
        forall|k: int| i <= k < s.len() ==> (#[trigger] s[k]) is None,
    ensures
        somes_from(s, i, acc) == acc,
    decreases s.len() - i,
{
    if i < s.len() {
        lemma_somes_of_nones(s, i + 1, acc);
    }
}

/// What holds of a list that can be gone through: no command behind the
/// segment commands is a segment command, and one that describes link-edit
/// regions is the one that was made for its kind.
proof fn lemma_tail_commands(
    n: Seq<Seq<u8>>,
    end: Endian,
    k: int,
    to: int,
    b: Seq<Option<Seq<u8>>>,
)
    requires
        0 <= k <= to <= n.len(),
        b.len() == NUM_BIT_CMDS,
        tail_state(n, end, k, to, b) is Some,
    ensures
        taken_from(tail_state(n, end, k, to, b)->Some_0, b),
        forall|i: int|
            k <= i < to ==> !is_segment_id(cmd_id_of(#[trigger] n[i], end)) && (bit_index(
                cmd_id_of(n[i], end),
            ) is Some ==> b[bit_index(cmd_id_of(n[i], end))->Some_0] == Some(n[i])),
    decreases to - k,
{
    if to > k {
        lemma_tail_state_before(n, end, k, to, to - 1, b);
        lemma_tail_commands(n, end, k, to - 1, b);
    }
}

/// A link-edit command that was taken stands in the list.
proof fn lemma_taken_stands(
    n: Seq<Seq<u8>>,
    end: Endian,
    k: int,
    to: int,
    b: Seq<Option<Seq<u8>>>,
    kk: int,
)
    requires
        0 <= k <= to <= n.len(),
        0 <= kk < b.len(),
        b.len() == NUM_BIT_CMDS,
        tail_state(n, end, k, to, b) is Some,
        b[kk] is Some,
        tail_state(n, end, k, to, b)->Some_0[kk] is None,
    ensures
        exists|i: int| k <= i < to && #[trigger] n[i] == b[kk]->Some_0,
    decreases to - k,
{
    if to > k {
        lemma_tail_state_before(n, end, k, to, to - 1, b);
        lemma_tail_commands(n, end, k, to - 1, b);
        let before = tail_state(n, end, k, to - 1, b)->Some_0;
        if before[kk] is None {
            lemma_taken_stands(n, end, k, to - 1, b, kk);
            let i = choose|i: int| k <= i < to - 1 && #[trigger] n[i] == b[kk]->Some_0;
            assert(k <= i < to && n[i] == b[kk]->Some_0);
        } else {
            assert(n[to - 1] == b[kk]->Some_0);
        }
    }
}

/// A list has a command of a kind from `i` on exactly when one of its
/// commands from `i` on is of that kind.
proof fn lemma_has_cmd(lcs: Seq<Seq<u8>>, end: Endian, id: u32, i: int)
    requires
        0 <= i,
    ensures
        has_cmd_from(lcs, end, id, i) <==> exists|t: int|
            i <= t < lcs.len() && cmd_id_of(#[trigger] lcs[t], end) == id,
    decreases lcs.len() - i,
{
    if i < lcs.len() {
        lemma_has_cmd(lcs, end, id, i + 1);
        if has_cmd_from(lcs, end, id, i) {
            if cmd_id_of(lcs[i], end) == id {
                assert(i <= i < lcs.len() && cmd_id_of(lcs[i], end) == id);
            } else {
                let t = choose|t: int|
                    i + 1 <= t < lcs.len() && cmd_id_of(#[trigger] lcs[t], end) == id;
                assert(i <= t < lcs.len() && cmd_id_of(lcs[t], end) == id);
            }
        }
        if exists|t: int| i <= t < lcs.len() && cmd_id_of(#[trigger] lcs[t], end) == id {
            let t = choose|t: int| i <= t < lcs.len() && cmd_id_of(#[trigger] lcs[t], end) == id;
            if t != i {
                assert(i + 1 <= t < lcs.len() && cmd_id_of(lcs[t], end) == id);
            }
        }
    }
}

/// No link-edit command at all.
pub open spec fn no_bit_cmds() -> Seq<Option<Seq<u8>>> {
    Seq::new(NUM_BIT_CMDS as nat, |k: int| None::<Seq<u8>>)
}

/// The list of commands that is made for an image whose commands are in
/// order: it starts with the commands of the segments, and it can be gone
/// through again, which leaves no link-edit command to place.
#[verifier::rlimit(50)]
pub proof fn lemma_commands_made(
    a: MachOView,
    linkedit_off: u64,
    allocs: Seq<(usize, usize)>,
    w: Seq<Warning>,
)
    requires
        commands_in_order(a),
    ensures
        ({
            let n = updated_cmds(a, linkedit_off, allocs, w).0;
            let b = bit_cmds_made(
                a.is64,
                a.endian,
                dyld_info_kind(a.load_commands, a.endian),
                linkedit_off,
                allocs,
            );
            let k = a.segments.len() as int;
            &&& n.len() >= k
            &&& n.subrange(0, k) == segment_commands(a)
            &&& tail_state(n, a.endian, k, n.len() as int, b) == Some(no_bit_cmds())
        }),
{
    let end = a.endian;
    let lcs = a.load_commands;
    let k = a.segments.len() as int;
    let segs = seg_cmds(a, w);
    lemma_seg_cmds(a, w);
    let info_kind = dyld_info_kind(lcs, end);
    let b = bit_cmds_made(a.is64, end, info_kind, linkedit_off, allocs);
    lemma_bit_cmds_kinds(a.is64, end, info_kind, linkedit_off, allocs);
    let sca = segment_commands(a);
    let acc0 = CmdsAcc { cmds: Seq::empty(), existing: segs.existing, bit_cmds: b, insert_at: None };
    assert(acc0.cmds =~= sca.subrange(0, 0));
    assert(acc0.existing =~= Seq::new(
        lcs.len(),
        |t: int|
            if 0 <= t < sca.len() {
                Some(sca[t])
            } else {
                None
            },
    ));
    lemma_segments_first(lcs, end, 0, acc0, sca);
    let acc_k = CmdsAcc {
        cmds: sca,
        existing: Seq::new(lcs.len(), |t: int| None::<Seq<u8>>),
        bit_cmds: b,
        insert_at: None,
    };
    lemma_tail_made(lcs, end, k, acc_k, k, b);
    let r1 = cmds_from(lcs, end, k, acc_k);
    assert(r1 == cmds_from(lcs, end, 0, acc0));
    assert(without_first(r1.bit_cmds, 0) =~= r1.bit_cmds);
    lemma_leftover(r1.bit_cmds, 0, r1.cmds, end, k, b);
    let cmds = somes_from(r1.bit_cmds, 0, r1.cmds);
    assert(without_first(r1.bit_cmds, r1.bit_cmds.len() as int) =~= no_bit_cmds());
    lemma_somes_of_nones(r1.existing, 0, Seq::empty());
    let at = match r1.insert_at {
        Some(at) => at,
        None => cmds.len() as int,
    };
    let n = updated_cmds(a, linkedit_off, allocs, w).0;
    assert(n =~= cmds);
    assert(sca.subrange(0, k) =~= sca);
}

/// Whether an image holds the commands that were made for another, and is
/// the other in all that commands are made from.
pub open spec fn holds_commands_of(
    b: MachOView,
    a: MachOView,
    linkedit_off: u64,
    allocs: Seq<(usize, usize)>,
    w: Seq<Warning>,
) -> bool {
    &&& b.load_commands == updated_cmds(a, linkedit_off, allocs, w).0
    &&& b.segments.len() == a.segments.len()
    &&& forall|i: int|
        0 <= i < a.segments.len() ==> same_but_data(a.segments[i], #[trigger] b.segments[i])
    &&& b.sections == a.sections
    &&& b.is64 == a.is64
    &&& b.endian == a.endian
}

/// The command of one segment is made again unchanged, and is a segment
/// command with its fixed part whole.
#[verifier::rlimit(50)]
proof fn lemma_one_segment_again(
    a: MachOView,
    b: MachOView,
    linkedit_off: u64,
    allocs: Seq<(usize, usize)>,
    w: Seq<Warning>,
    i: int,
)
    requires
        commands_in_order(a),
        holds_commands_of(b, a, linkedit_off, allocs, w),
        0 <= i < a.segments.len(),
        i < b.load_commands.len(),
        b.load_commands[i] == segment_commands(a)[i],
    ensures
        is_segment_id(cmd_id_of(b.load_commands[i], a.endian)),
        b.load_commands[i].len() >= segment_command_size(b.is64),
        segment_command(b, i as usize, Seq::empty()).0 == segment_commands(a)[i],
{
    let end = a.endian;
    let n = b.load_commands;
    let seg = a.segments[i];
    let old = old_command(a.load_commands, seg, a.is64);
    assert(a.load_commands[i].len() >= segment_command_size(a.is64));
    assert(old is Some);
    let w1a = if crate::layout::name_too_long(seg.name) {
        Seq::<Warning>::empty().push(Warning::SegmentNameTooLong)
    } else {
        Seq::<Warning>::empty()
    };
    let r = section_records_from(
        a.sections,
        i as usize,
        name_field(seg.name),
        old,
        a.is64,
        end,
        0,
        0,
        Seq::empty(),
        w1a,
    );
    lemma_segment_fixed(seg, old, r.0, a.is64, end);
    let fixed = segment_fixed(seg, old, r.0, a.is64, end);
    assert(n[i] == fixed + r.1);
    assert(n[i].subrange(0, 4) =~= fixed.subrange(0, 4));
    lemma_u32_round_trip(
        if a.is64 {
            LC_SEGMENT_64
        } else {
            LC_SEGMENT
        },
        end,
    );
    lemma_segment_command_stable(a, b, i as usize, Seq::empty(), Seq::empty());
}

/// An image that holds the commands that were made for one whose commands
/// are in order has its commands in order too, and the commands of its
/// segments are those that it holds.
#[verifier::rlimit(50)]
proof fn lemma_segments_again(
    a: MachOView,
    b: MachOView,
    linkedit_off: u64,
    allocs: Seq<(usize, usize)>,
    w: Seq<Warning>,
)
    requires
        commands_in_order(a),
        holds_commands_of(b, a, linkedit_off, allocs, w),
    ensures
        commands_in_order(b),
        segment_commands(b) == segment_commands(a),
{
    let end = a.endian;
    let k = a.segments.len() as int;
    let n = b.load_commands;
    let info = dyld_info_kind(a.load_commands, end);
    let made = bit_cmds_made(a.is64, end, info, linkedit_off, allocs);
    lemma_commands_made(a, linkedit_off, allocs, w);
    lemma_tail_commands(n, end, k, n.len() as int, made);
    let sca = segment_commands(a);
    assert forall|i: int| 0 <= i < k implies is_segment_id(cmd_id_of(#[trigger] n[i], end))
        && n[i].len() >= segment_command_size(b.is64) by {
        assert(n[i] == n.subrange(0, k)[i]);
        lemma_one_segment_again(a, b, linkedit_off, allocs, w, i);
    }
    assert forall|i: int| 0 <= i < k implies (#[trigger] b.segments[i]).private == Some(
        i as usize,
    ) by {
        assert(same_but_data(a.segments[i], b.segments[i]));
    }
    assert forall|i: int| 0 <= i < k implies #[trigger] segment_commands(b)[i] == sca[i] by {
        assert(n[i] == n.subrange(0, k)[i]);
        lemma_one_segment_again(a, b, linkedit_off, allocs, w, i);
    }
    assert(segment_commands(b) =~= sca);
}

/// The link-edit commands that are made for an image that holds the
/// commands that were made are those that were made.
#[verifier::rlimit(50)]
proof fn lemma_bit_cmds_again(
    a: MachOView,
    b: MachOView,
    linkedit_off: u64,
    allocs: Seq<(usize, usize)>,
    w: Seq<Warning>,
)
    requires
        commands_in_order(a),
        holds_commands_of(b, a, linkedit_off, allocs, w),
    ensures
        bit_cmds_made(
            b.is64,
            b.endian,
            dyld_info_kind(b.load_commands, b.endian),
            linkedit_off,
            allocs,
        ) == bit_cmds_made(
            a.is64,
            a.endian,
            dyld_info_kind(a.load_commands, a.endian),
            linkedit_off,
            allocs,
        ),
{
    let end = a.endian;
    let k = a.segments.len() as int;
    let n = b.load_commands;
    let info = dyld_info_kind(a.load_commands, end);
    let made = bit_cmds_made(a.is64, end, info, linkedit_off, allocs);
    lemma_commands_made(a, linkedit_off, allocs, w);
    lemma_bit_cmds_kinds(a.is64, end, info, linkedit_off, allocs);
    lemma_tail_commands(n, end, k, n.len() as int, made);
    lemma_segments_again(a, b, linkedit_off, allocs, w);
    let info2 = dyld_info_kind(n, end);
    let made2 = bit_cmds_made(b.is64, end, info2, linkedit_off, allocs);
    lemma_bit_cmds_other_kind(a.is64, end, info, info2, linkedit_off, allocs);
    lemma_has_cmd(n, end, LC_DYLD_INFO, 0);
    if made[0] is Some {
        lemma_bit_cmd_kind(a.is64, end, 0, info, linkedit_off, allocs);
        lemma_taken_stands(n, end, k, n.len() as int, made, 0);
        let i = choose|i: int| k <= i < n.len() && #[trigger] n[i] == made[0]->Some_0;
        assert(cmd_id_of(n[i], end) == info);
        if info != LC_DYLD_INFO {
            assert forall|t: int| 0 <= t < n.len() implies cmd_id_of(#[trigger] n[t], end)
                != LC_DYLD_INFO by {
                if t >= k && cmd_id_of(n[t], end) == LC_DYLD_INFO {
                    assert(bit_index(LC_DYLD_INFO) == Some(0int));
                    assert(made[0] == Some(n[t]));
                }
            }
        }
        assert(info2 == info);
    }
    assert(made2 =~= made);
}

/// The list that is made when the segments have their commands at their
/// places, no segment is new, and the list that is gone through can be gone
/// through again: it is the list that is gone through.
#[verifier::rlimit(50)]
proof fn lemma_replayed_whole(
    n: Seq<Seq<u8>>,
    end: Endian,
    sca: Seq<Seq<u8>>,
    made: Seq<Option<Seq<u8>>>,
)
    requires
        sca.len() <= n.len(),
        n.subrange(0, sca.len() as int) == sca,
        forall|t: int| 0 <= t < sca.len() ==> is_segment_id(cmd_id_of(#[trigger] n[t], end)),
        tail_state(n, end, sca.len() as int, n.len() as int, made) == Some(no_bit_cmds()),
    ensures
        ({
            let acc = cmds_from(
                n,
                end,
                0,
                CmdsAcc {
                    cmds: Seq::empty(),
                    existing: Seq::new(
                        n.len(),
                        |t: int|
                            if 0 <= t < sca.len() {
                                Some(sca[t])
                            } else {
                                None
                            },
                    ),
                    bit_cmds: made,
                    insert_at: None,
                },
            );
            &&& somes_from(acc.bit_cmds, 0, acc.cmds) == n
            &&& somes_from(acc.existing, 0, Seq::empty()) == Seq::<Seq<u8>>::empty()
            &&& acc.insert_at is Some ==> 0 <= acc.insert_at->Some_0 <= n.len()
        }),
{
    let k = sca.len() as int;
    let acc0 = CmdsAcc {
        cmds: Seq::empty(),
        existing: Seq::new(
            n.len(),
            |t: int|
                if 0 <= t < sca.len() {
                    Some(sca[t])
                } else {
                    None
                },
        ),
        bit_cmds: made,
        insert_at: None,
    };
    assert(acc0.cmds =~= sca.subrange(0, 0));
    lemma_segments_first(n, end, 0, acc0, sca);
    let acc_k = CmdsAcc {
        cmds: sca,
        existing: Seq::new(n.len(), |t: int| None::<Seq<u8>>),
        bit_cmds: made,
        insert_at: None,
    };
    lemma_replay(n, end, k, acc_k, k, made);
    let r2 = cmds_from(n, end, k, acc_k);
    lemma_somes_of_nones(r2.bit_cmds, 0, r2.cmds);
    lemma_somes_of_nones(r2.existing, 0, Seq::empty());
}

/// The list of commands of an image is what going through its old list
/// gives, with the link-edit commands that were left behind it, when no
/// command of a segment is left to place.
#[verifier::rlimit(50)]
proof fn lemma_updated_cmds_plain(
    b: MachOView,
    linkedit_off: u64,
    allocs: Seq<(usize, usize)>,
    w2: Seq<Warning>,
    n: Seq<Seq<u8>>,
)
    requires
        ({
            let segs = seg_cmds(b, w2);
            let acc = cmds_from(
                b.load_commands,
                b.endian,
                0,
                CmdsAcc {
                    cmds: Seq::empty(),
                    existing: segs.existing,
                    bit_cmds: bit_cmds_made(
                        b.is64,
                        b.endian,
                        dyld_info_kind(b.load_commands, b.endian),
                        linkedit_off,
                        allocs,
                    ),
                    insert_at: None,
                },
            );
            &&& segs.extra == Seq::<Seq<u8>>::empty()
            &&& somes_from(acc.bit_cmds, 0, acc.cmds) == n
            &&& somes_from(acc.existing, 0, Seq::empty()) == Seq::<Seq<u8>>::empty()
            &&& acc.insert_at is Some ==> 0 <= acc.insert_at->Some_0 <= n.len()
        }),
    ensures
        updated_cmds(b, linkedit_off, allocs, w2).0 == n,
{
    assert(bit_cmds_made(
        b.is64,
        b.endian,
        dyld_info_kind(b.load_commands, b.endian),
        linkedit_off,
        allocs,
    ) =~= Seq::new(
        NUM_BIT_CMDS as nat,
        |k: int|
            bit_cmd(
                b.is64,
                b.endian,
                k,
                dyld_info_kind(b.load_commands, b.endian),
                linkedit_off,
                allocs,
            ),
    ));
    assert(updated_cmds(b, linkedit_off, allocs, w2).0 =~= n);
}

/// The commands that were made for an image whose commands are in order are
/// made again unchanged once the image holds them, whatever bytes its
/// segments then hold.
#[verifier::rlimit(50)]
pub proof fn lemma_commands_made_again(
    a: MachOView,
    b: MachOView,
    linkedit_off: u64,
    allocs: Seq<(usize, usize)>,
    w: Seq<Warning>,
    w2: Seq<Warning>,
)
    requires
        commands_in_order(a),
        holds_commands_of(b, a, linkedit_off, allocs, w),
    ensures
        commands_in_order(b),
        updated_cmds(b, linkedit_off, allocs, w2).0 == b.load_commands,
{
    let end = a.endian;
    let n = b.load_commands;
    lemma_commands_made(a, linkedit_off, allocs, w);
    lemma_segments_again(a, b, linkedit_off, allocs, w);
    lemma_bit_cmds_again(a, b, linkedit_off, allocs, w);
    let sca = segment_commands(a);
    let made = bit_cmds_made(
        a.is64,
        end,
        dyld_info_kind(a.load_commands, end),
        linkedit_off,
        allocs,
    );
    lemma_seg_cmds(b, w2);
    assert(seg_cmds(b, w2).existing =~= Seq::new(
        n.len(),
        |t: int|
            if 0 <= t < sca.len() {
                Some(sca[t])
            } else {
                None
            },
    ));
    lemma_replayed_whole(n, end, sca, made);
    lemma_updated_cmds_plain(b, linkedit_off, allocs, w2, n);
}

} // verus!
