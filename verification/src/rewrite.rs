//! The rewriting of an image: its link-edit data is packed anew, its
//! segments are laid out from the start of the file, its load commands are
//! made again, and the whole file is put together.

use vstd::prelude::*;
use crate::commands::{updated_cmds, zeros};
use crate::defs::{MACH_HEADER_64_SIZE, MACH_HEADER_SIZE};
use crate::diag::Warning;
use crate::exec::{Segment, SegmentView, opt_bytes, segment_data, segment_views};
use crate::image::{CODE_SIGNATURE, MachHeader, MachO, MachOError, MachOView, SYMTAB, bytes_views};
use crate::layout::{
    align_to_page, packed, page_aligned, sections_placed, segments_placed, symtab_merged,
};
use crate::util::{Endian, append_bytes, append_zeros, bytes_eq, copy_range, patched};

verus! {

/// The name of the segment that holds the link-edit data.
pub open spec fn linkedit_name() -> Seq<u8> {
    seq![0x5fu8, 0x5fu8, 0x4cu8, 0x49u8, 0x4eu8, 0x4bu8, 0x45u8, 0x44u8, 0x49u8, 0x54u8]
}

/// Whether a segment is the one that holds the link-edit data.
pub open spec fn is_linkedit_segment(s: SegmentView) -> bool {
    s.name == Some(linkedit_name())
}

/// Whether a segment is one that starts with the header.
pub open spec fn is_text_segment(s: SegmentView, hdr_offset: usize) -> bool {
    !is_linkedit_segment(s) && s.fileoff == hdr_offset as u64 && s.filesize > 0
}

/// The segments with every link-edit segment made to hold `linkedit`: as
/// many bytes in the file, and whole pages in memory.
pub open spec fn segments_resized(segments: Seq<SegmentView>, linkedit: Seq<u8>) -> Seq<SegmentView> {
    Seq::new(
        segments.len(),
        |i: int|
            if is_linkedit_segment(segments[i]) {
                SegmentView {
                    vmsize: page_aligned(linkedit.len() as u64),
                    filesize: linkedit.len() as u64,
                    data: Some(linkedit),
                    ..segments[i]
                }
            } else {
                segments[i]
            },
    )
}

/// The last link-edit segment at or after `i`, or else `acc`.
pub open spec fn last_linkedit_from(segments: Seq<SegmentView>, i: int, acc: Option<usize>) -> Option<
    usize,
>
    decreases segments.len() - i,
{
    if i < 0 || i >= segments.len() {
        acc
    } else {
        last_linkedit_from(
            segments,
            i + 1,
            if is_linkedit_segment(segments[i]) {
                Some(i as usize)
            } else {
                acc
            },
        )
    }
}

/// The last segment at or after `i` that starts with the header, or else
/// `acc`.
pub open spec fn last_text_from(
    segments: Seq<SegmentView>,
    hdr_offset: usize,
    i: int,
    acc: Option<usize>,
) -> Option<usize>
    decreases segments.len() - i,
{
    if i < 0 || i >= segments.len() {
        acc
    } else {
        last_text_from(
            segments,
            hdr_offset,
            i + 1,
            if is_text_segment(segments[i], hdr_offset) {
                Some(i as usize)
            } else {
                acc
            },
        )
    }
}

/// What is found is the index of a segment of the kind looked for.
pub proof fn lemma_last_from(segments: Seq<SegmentView>, hdr_offset: usize, i: int, acc: Option<usize>)
    requires
        0 <= i,
        acc is Some ==> acc->Some_0 < segments.len() && is_text_segment(
            segments[acc->Some_0 as int],
            hdr_offset,
        ),
        segments.len() <= usize::MAX,
    ensures
        match last_text_from(segments, hdr_offset, i, acc) {
            Some(t) => t < segments.len() && is_text_segment(segments[t as int], hdr_offset),
            None => acc is None && forall|j: int|
                i <= j < segments.len() ==> !is_text_segment(segments[j], hdr_offset),
        },
    decreases segments.len() - i,
{
    if i < segments.len() {
        lemma_last_from(
            segments,
            hdr_offset,
            i + 1,
            if is_text_segment(segments[i], hdr_offset) {
                Some(i as usize)
            } else {
                acc
            },
        );
    }
}

/// The least offset, from the start of the header's segment, of a section of
/// that segment that has bytes in the file; `acc` is the least so far.
pub open spec fn first_section_from(
    sections: Seq<SegmentView>,
    text_idx: usize,
    text_fileoff: u64,
    k: int,
    acc: Option<u64>,
) -> Option<u64>
    decreases sections.len() - k,
{
    if k < 0 || k >= sections.len() {
        acc
    } else {
        let s = sections[k];
        let rel = s.fileoff.wrapping_sub(text_fileoff);
        first_section_from(
            sections,
            text_idx,
            text_fileoff,
            k + 1,
            if s.filesize != 0 && s.seg_idx == Some(text_idx) && (acc is None || rel
                < acc->Some_0) {
                Some(rel)
            } else {
                acc
            },
        )
    }
}

/// The size of the header of an image.
pub open spec fn header_size(is64: bool) -> usize {
    if is64 {
        MACH_HEADER_64_SIZE
    } else {
        MACH_HEADER_SIZE
    }
}

/// Where the space for load commands ends, counted from the start of the
/// header's segment: where the header says that the old commands end, or
/// where the first section starts, whichever comes first.
pub open spec fn commands_space_end(is64: bool, sizeofcmds: u32, first_section: Option<u64>) -> int {
    let by_header = header_size(is64) + sizeofcmds;
    match first_section {
        Some(f) => if f < by_header {
            f as int
        } else {
            by_header
        },
        None => by_header,
    }
}

/// The byte strings of a list from the `i`-th on, one after the other,
/// behind `acc`.
pub open spec fn joined_from(cmds: Seq<Seq<u8>>, i: int, acc: Seq<u8>) -> Seq<u8>
    decreases cmds.len() - i,
{
    if i < 0 || i >= cmds.len() {
        acc
    } else {
        joined_from(cmds, i + 1, acc + cmds[i])
    }
}

/// The byte strings of a list, one after the other.
pub open spec fn joined(cmds: Seq<Seq<u8>>) -> Seq<u8> {
    joined_from(cmds, 0, Seq::empty())
}

/// The bytes of the header's segment after rewriting: the header, the load
/// commands, zeros up to the end of the space for commands, and behind that
/// what the segment held before.
pub open spec fn text_rewritten(
    mh: MachHeader,
    end: Endian,
    is64: bool,
    cmds: Seq<Seq<u8>>,
    space_end: int,
    old_data: Seq<u8>,
) -> Seq<u8> {
    let head = mh.encoded(end) + zeros((header_size(is64) - MACH_HEADER_SIZE) as nat) + joined(
        cmds,
    );
    head + zeros((space_end - head.len()) as nat) + old_data.subrange(
        space_end,
        old_data.len() as int,
    )
}

/// What rewriting makes of an image.
pub struct Reallocated {
    pub image: MachOView,
    pub warnings: Seq<Warning>,
    pub result: Result<(), MachOError>,
}

/// The image before its segments are laid out: the code signature is
/// dropped, the symbol table is put together from its parts, and the
/// link-edit segment is made to hold the packed regions.
pub open spec fn linkedit_renewed(m: MachOView) -> MachOView {
    let regions = symtab_merged(m.linkedit.update(CODE_SIGNATURE as int, Seq::empty()));
    MachOView {
        linkedit: regions,
        segments: segments_resized(m.segments, packed(regions).linkedit),
        ..m
    }
}

/// The image after rewriting, or the reason why it cannot be rewritten.
///
/// Rewriting fails when no segment starts with the header; when link-edit
/// data exists but no segment for it; when the header's segment does not hold
/// its bytes; and when the new load commands do not fit the space that the
/// old ones had: the image is then left as `linkedit_renewed` gives it, or
/// with its segments laid out besides.
pub open spec fn reallocated(m: MachOView, warnings: Seq<Warning>) -> Reallocated {
    let m1 = linkedit_renewed(m);
    let p = packed(m1.linkedit);
    let linkedit_idx = last_linkedit_from(m.segments, 0, None);
    let text_idx = last_text_from(m.segments, m.hdr_offset, 0, None);
    if text_idx is None {
        Reallocated { image: m1, warnings, result: Err(MachOError::NoTextSegment) }
    } else if linkedit_idx is None && p.linkedit.len() > 0 {
        Reallocated { image: m1, warnings, result: Err(MachOError::NewSegmentsUnsupported) }
    } else if segment_data(m1.segments[text_idx->Some_0 as int]).len()
        != m1.segments[text_idx->Some_0 as int].filesize {
        Reallocated { image: m1, warnings, result: Err(MachOError::Truncated) }
    } else {
        let ti = text_idx->Some_0 as int;
        let m2 = MachOView {
            segments: segments_placed(m1.segments),
            sections: sections_placed(m1.sections, m1.segments),
            ..m1
        };
        let linkedit_off = match linkedit_idx {
            Some(li) => m2.segments[li as int].fileoff,
            None => 0,
        };
        let c = updated_cmds(m2, linkedit_off, p.allocs, warnings);
        let text = m2.segments[ti];
        let space_end = commands_space_end(
            m.is64,
            m.mh.sizeofcmds,
            first_section_from(m2.sections, text_idx->Some_0, text.fileoff, 0, None),
        );
        if space_end > text.filesize {
            Reallocated { image: m2, warnings: c.1, result: Err(MachOError::CommandsPastText) }
        } else if space_end < header_size(m.is64) {
            Reallocated { image: m2, warnings: c.1, result: Err(MachOError::SizeofcmdsTooSmall) }
        } else if joined(c.0).len() > space_end - header_size(m.is64) {
            Reallocated { image: m2, warnings: c.1, result: Err(MachOError::NeedSlide) }
        } else {
            let mh = MachHeader {
                ncmds: c.0.len() as u32,
                sizeofcmds: joined(c.0).len() as u32,
                ..m.mh
            };
            Reallocated {
                image: MachOView {
                    mh,
                    segments: m2.segments.update(
                        ti,
                        SegmentView {
                            data: Some(
                                text_rewritten(
                                    mh,
                                    m.endian,
                                    m.is64,
                                    c.0,
                                    space_end,
                                    segment_data(text),
                                ),
                            ),
                            ..text
                        },
                    ),
                    load_commands: c.0,
                    ..m2
                },
                warnings: c.1,
                result: Ok(()),
            }
        }
    }
}

fn is_linkedit_name(name: &Option<Vec<u8>>) -> (r: bool)
    ensures
        r == (opt_bytes(*name) == Some(linkedit_name())),
{
    match name {
        Some(n) => {
            let lit: [u8; 10] = [0x5f, 0x5f, 0x4c, 0x49, 0x4e, 0x4b, 0x45, 0x44, 0x49, 0x54];
            assert(lit@ =~= linkedit_name());
            bytes_eq(n.as_slice(), lit.as_slice())
        },
        None => false,
    }
}

proof fn lemma_segment_views_update(s: Seq<Segment>, i: int, x: Segment)
    requires
        0 <= i < s.len(),
    ensures
        segment_views(s.update(i, x)) == segment_views(s).update(i, x@),
{
    assert(segment_views(s.update(i, x)) =~= segment_views(s).update(i, x@));
}

impl MachO {
    /// Makes every link-edit segment hold `linkedit`, and finds the last
    /// such segment and the last segment that starts with the header.
    #[verifier::rlimit(50)]
    fn resize_linkedit(&mut self, linkedit: &Vec<u8>) -> (r: (Option<usize>, Option<usize>))
        ensures
            final(self)@ == (MachOView {
                segments: segments_resized(old(self)@.segments, linkedit@),
                ..old(self)@
            }),
            final(self).linkedit == old(self).linkedit,
            r.0 == last_linkedit_from(old(self)@.segments, 0, None),
            r.1 == last_text_from(old(self)@.segments, old(self).hdr_offset, 0, None),
            r.0 is Some ==> r.0->Some_0 < old(self)@.segments.len(),
            r.1 is Some ==> r.1->Some_0 < old(self)@.segments.len(),
    {
        let ghost segs0 = self@.segments;
        let hdr_offset = self.hdr_offset;
        let mut linkedit_idx: Option<usize> = None;
        let mut text_idx: Option<usize> = None;
        let mut i: usize = 0;
        while i < self.eb.segments.len()
            invariant
                i <= self.eb.segments@.len(),
                self.eb.segments@.len() == segs0.len(),
                hdr_offset == old(self).hdr_offset,
                self@ == (MachOView { segments: self@.segments, ..old(self)@ }),
                self.linkedit == old(self).linkedit,
                last_linkedit_from(segs0, i as int, linkedit_idx) == last_linkedit_from(
                    segs0,
                    0,
                    None,
                ),
                last_text_from(segs0, hdr_offset, i as int, text_idx) == last_text_from(
                    segs0,
                    hdr_offset,
                    0,
                    None,
                ),
                linkedit_idx is Some ==> linkedit_idx->Some_0 < segs0.len(),
                text_idx is Some ==> text_idx->Some_0 < segs0.len(),
                forall|j: int|
                    0 <= j < i ==> self@.segments[j] == segments_resized(segs0, linkedit@)[j],
                forall|j: int| i <= j < segs0.len() ==> self@.segments[j] == segs0[j],
            decreases self.eb.segments@.len() - i,
        {
            let ghost before = self.eb.segments@;
            assert(self@.segments[i as int] == segs0[i as int]);
            assert(self@.segments[i as int] == self.eb.segments@[i as int]@);
            if is_linkedit_name(&self.eb.segments[i].name) {
                linkedit_idx = Some(i);
                let len = linkedit.len() as u64;
                self.eb.segments[i].vmsize = align_to_page(len);
                self.eb.segments[i].filesize = len;
                self.eb.segments[i].data = Some(copy_range(linkedit.as_slice(), 0, linkedit.len()));
                proof {
                    assert(self.eb.segments@[i as int].data->Some_0@ =~= linkedit@);
                    lemma_segment_views_update(before, i as int, self.eb.segments@[i as int]);
                    assert(self.eb.segments@ =~= before.update(
                        i as int,
                        self.eb.segments@[i as int],
                    ));
                }
            } else if self.eb.segments[i].fileoff == hdr_offset as u64
                && self.eb.segments[i].filesize > 0 {
                text_idx = Some(i);
            }
            i += 1;
        }
        assert(self@.segments =~= segments_resized(segs0, linkedit@));
        (linkedit_idx, text_idx)
    }

    /// The least offset, from the start of segment `text_idx`, of a section
    /// of that segment that has bytes in the file.
    fn first_section_offset(&self, text_idx: usize, text_fileoff: u64) -> (r: Option<u64>)
        ensures
            r == first_section_from(self@.sections, text_idx, text_fileoff, 0, None),
    {
        let mut acc: Option<u64> = None;
        let mut k: usize = 0;
        while k < self.eb.sections.len()
            invariant
                k <= self.eb.sections@.len(),
                first_section_from(self@.sections, text_idx, text_fileoff, k as int, acc)
                    == first_section_from(self@.sections, text_idx, text_fileoff, 0, None),
            decreases self.eb.sections@.len() - k,
        {
            let s = &self.eb.sections[k];
            assert(self@.sections[k as int] == s@);
            let rel = s.fileoff.wrapping_sub(text_fileoff);
            let belongs = match s.seg_idx {
                Some(si) => si == text_idx,
                None => false,
            };
            let better = match acc {
                Some(a) => rel < a,
                None => true,
            };
            if s.filesize != 0 && belongs && better {
                acc = Some(rel);
            }
            k += 1;
        }
        acc
    }
}

impl MachO {
    /// Rewrites the image: packs its link-edit data anew, lays out its
    /// segments from the start of the file, and makes its header and load
    /// commands again in the bytes of the header's segment.
    #[verifier::rlimit(50)]
    pub fn reallocate(&mut self, warnings: &mut Vec<Warning>) -> (r: Result<(), MachOError>)
        requires
            old(self).wf(),
        ensures
            final(self).wf(),
            final(self)@ == reallocated(old(self)@, old(warnings)@).image,
            final(warnings)@ == reallocated(old(self)@, old(warnings)@).warnings,
            r == reallocated(old(self)@, old(warnings)@).result,
    {
        let ghost m0 = self@;
        let ghost w0 = warnings@;
        let empty: Vec<u8> = Vec::new();
        proof {
            assert(bytes_views(self.linkedit@.update(CODE_SIGNATURE as int, empty))
                =~= m0.linkedit.update(CODE_SIGNATURE as int, Seq::empty()));
        }
        self.linkedit.set(CODE_SIGNATURE, empty);
        self.xsym_to_symtab();
        let symtab_len = self.linkedit[SYMTAB].len();
        assert(self@.linkedit[SYMTAB as int] == self.linkedit@[SYMTAB as int]@);
        let (linkedit, linkedit_allocs) = self.reallocate_linkedit();
        let (linkedit_idx, text_idx) = self.resize_linkedit(&linkedit);
        let ghost m1 = self@;
        assert(m1 == linkedit_renewed(m0));
        let text_idx = match text_idx {
            Some(t) => t,
            None => {
                return Err(MachOError::NoTextSegment);
            },
        };
        if linkedit_idx.is_none() && linkedit.len() > 0 {
            return Err(MachOError::NewSegmentsUnsupported);
        }
        assert(m1.segments[text_idx as int] == self.eb.segments@[text_idx as int]@);
        if self.eb.segments[text_idx].get_data().len() as u64
            != self.eb.segments[text_idx].filesize {
            return Err(MachOError::Truncated);
        }
        self.reallocate_seg_offsets();
        let ghost m2 = self@;
        let linkedit_off = match linkedit_idx {
            Some(li) => {
                assert(m2.segments[li as int] == self.eb.segments@[li as int]@);
                self.eb.segments[li].fileoff
            },
            None => 0,
        };
        let cmds = self.update_cmds(linkedit_off, linkedit_allocs.as_slice(), warnings);
        let all = join(&cmds);
        assert(m2.segments[text_idx as int] == self.eb.segments@[text_idx as int]@);
        let text_fileoff = self.eb.segments[text_idx].fileoff;
        let text_filesize = self.eb.segments[text_idx].filesize;
        let first_section = self.first_section_offset(text_idx, text_fileoff);
        let hsize: u64 = if self.is64 {
            32
        } else {
            28
        };
        let by_header: u64 = hsize + self.mh.sizeofcmds as u64;
        let space_end: u64 = match first_section {
            Some(f) => if f < by_header {
                f
            } else {
                by_header
            },
            None => by_header,
        };
        if space_end > text_filesize {
            return Err(MachOError::CommandsPastText);
        }
        if space_end < hsize {
            return Err(MachOError::SizeofcmdsTooSmall);
        }
        if all.len() as u64 > space_end - hsize {
            return Err(MachOError::NeedSlide);
        }
        self.mh.ncmds = #[verifier::truncate] (cmds.len() as u32);
        self.mh.sizeofcmds = #[verifier::truncate] (all.len() as u32);
        let ghost text = m2.segments[text_idx as int];
        let mut sbuf: Vec<u8> = Vec::new();
        self.mh.encode(&mut sbuf, self.eb.endian);
        proof {
            self.mh.lemma_round_trip(self.eb.endian);
        }
        append_zeros(&mut sbuf, (hsize - 28) as usize);
        append_bytes(&mut sbuf, all.as_slice());
        let ghost head = sbuf@;
        let old_data = self.eb.segments[text_idx].get_data();
        assert(old_data@.len() == old_data.len());
        let pad = space_end as usize - sbuf.len();
        append_zeros(&mut sbuf, pad);
        append_bytes(
            &mut sbuf,
            vstd::slice::slice_subrange(old_data, space_end as usize, old_data.len()),
        );
        assert(sbuf@ =~= text_rewritten(
            self.mh,
            self.eb.endian,
            self.is64,
            bytes_views(cmds@),
            space_end as int,
            segment_data(text),
        ));
        let ghost before = self.eb.segments@;
        self.eb.segments[text_idx].data = Some(sbuf);
        proof {
            lemma_segment_views_update(before, text_idx as int, self.eb.segments@[text_idx as int]);
            assert(self.eb.segments@ =~= before.update(
                text_idx as int,
                self.eb.segments@[text_idx as int],
            ));
        }
        self.load_commands = cmds;
        Ok(())
    }
}

/// Whether every segment holds as many bytes as its size in the file says,
/// in a range of the file that can be addressed.
pub open spec fn segments_whole(segments: Seq<SegmentView>) -> bool {
    forall|i: int|
        0 <= i < segments.len() ==> segment_data(#[trigger] segments[i]).len()
            == segments[i].filesize && segments[i].fileoff + segments[i].filesize <= usize::MAX
}

/// The length of the file that holds the segments from the `i`-th on, and
/// is no shorter than `acc`.
pub open spec fn whole_size_from(segments: Seq<SegmentView>, i: int, acc: int) -> int
    decreases segments.len() - i,
{
    if i < 0 || i >= segments.len() {
        acc
    } else {
        let end = segments[i].fileoff + segments[i].filesize;
        whole_size_from(
            segments,
            i + 1,
            if end > acc {
                end
            } else {
                acc
            },
        )
    }
}

/// The file `buf` with the bytes of the segments from the `i`-th on written
/// at their offsets, in order.
pub open spec fn laid_out_from(segments: Seq<SegmentView>, i: int, buf: Seq<u8>) -> Seq<u8>
    decreases segments.len() - i,
{
    if i < 0 || i >= segments.len() {
        buf
    } else {
        laid_out_from(
            segments,
            i + 1,
            patched(buf, segments[i].fileoff as int, segment_data(segments[i])),
        )
    }
}

/// The whole file of an image: as long as its last segment needs, zero
/// where no segment is, and else what the segments hold.
pub open spec fn whole_file(segments: Seq<SegmentView>) -> Seq<u8> {
    laid_out_from(segments, 0, zeros(whole_size_from(segments, 0, 0) as nat))
}

/// The size of the whole file covers every segment.
proof fn lemma_whole_size_from(segments: Seq<SegmentView>, i: int, acc: int)
    requires
        0 <= i,
    ensures
        whole_size_from(segments, i, acc) >= acc,
        forall|j: int|
            i <= j < segments.len() ==> segments[j].fileoff + segments[j].filesize
                <= whole_size_from(segments, i, acc),
    decreases segments.len() - i,
{
    if i < segments.len() {
        let end = segments[i].fileoff + segments[i].filesize;
        lemma_whole_size_from(
            segments,
            i + 1,
            if end > acc {
                end
            } else {
                acc
            },
        );
    }
}

/// Whether no segment behind the `i`-th shares a byte of the file with it.
pub open spec fn alone_in_file(segments: Seq<SegmentView>, i: int) -> bool {
    forall|j: int|
        i < j < segments.len() ==> (#[trigger] segments[j]).fileoff + segments[j].filesize
            <= segments[i].fileoff || segments[i].fileoff + segments[i].filesize
            <= segments[j].fileoff
}

proof fn lemma_laid_out_from(
    segments: Seq<SegmentView>,
    k: int,
    buf: Seq<u8>,
    from: int,
    to: int,
    size: int,
)
    requires
        0 <= k,
        0 <= from <= to <= size,
        buf.len() == size,
        segments_whole(segments),
        forall|j: int|
            0 <= j < segments.len() ==> (#[trigger] segments[j]).fileoff + segments[j].filesize
                <= size,
        forall|j: int|
            k <= j < segments.len() ==> (#[trigger] segments[j]).fileoff + segments[j].filesize
                <= from || to <= segments[j].fileoff,
    ensures
        laid_out_from(segments, k, buf).len() == size,
        laid_out_from(segments, k, buf).subrange(from, to) == buf.subrange(from, to),
    decreases segments.len() - k,
{
    if k < segments.len() {
        let s = segments[k];
        let next = patched(buf, s.fileoff as int, segment_data(s));
        assert(next.len() == size);
        assert(next.subrange(from, to) =~= buf.subrange(from, to));
        lemma_laid_out_from(segments, k + 1, next, from, to, size);
    }
}

/// The whole file is as long as its last segment needs, and holds the bytes
/// of every segment that shares no byte with a later one, at its offset.
pub proof fn lemma_whole_file_holds(segments: Seq<SegmentView>, i: int)
    requires
        segments_whole(segments),
        0 <= i < segments.len(),
        alone_in_file(segments, i),
    ensures
        whole_file(segments).len() == whole_size_from(segments, 0, 0),
        segments[i].fileoff + segments[i].filesize <= whole_file(segments).len(),
        whole_file(segments).subrange(
            segments[i].fileoff as int,
            segments[i].fileoff + segments[i].filesize,
        ) == segment_data(segments[i]),
{
    let size = whole_size_from(segments, 0, 0);
    lemma_whole_size_from(segments, 0, 0);
    lemma_prefix_laid_out(segments, 0, i, zeros(size as nat), size);
}

proof fn lemma_prefix_laid_out(
    segments: Seq<SegmentView>,
    k: int,
    i: int,
    buf: Seq<u8>,
    size: int,
)
    requires
        0 <= k <= i < segments.len(),
        buf.len() == size,
        segments_whole(segments),
        alone_in_file(segments, i),
        forall|j: int|
            0 <= j < segments.len() ==> (#[trigger] segments[j]).fileoff + segments[j].filesize
                <= size,
    ensures
        laid_out_from(segments, k, buf).len() == size,
        laid_out_from(segments, k, buf).subrange(
            segments[i].fileoff as int,
            segments[i].fileoff + segments[i].filesize,
        ) == segment_data(segments[i]),
    decreases i - k,
{
    let s = segments[k];
    let next = patched(buf, s.fileoff as int, segment_data(s));
    assert(next.len() == size);
    if k < i {
        lemma_prefix_laid_out(segments, k + 1, i, next, size);
    } else {
        assert(next.subrange(s.fileoff as int, s.fileoff + s.filesize) =~= segment_data(s));
        lemma_laid_out_from(
            segments,
            i + 1,
            next,
            s.fileoff as int,
            s.fileoff + s.filesize,
            size,
        );
    }
}

/// Replaces the bytes of `buf` from `off` on by `src`.
fn copy_into(buf: &mut Vec<u8>, off: usize, src: &[u8])
    requires
        off + src@.len() <= old(buf)@.len(),
    ensures
        final(buf)@ == patched(old(buf)@, off as int, src@),
{
    let n = buf.len();
    assert(src@.len() == src.len());
    let mut i: usize = 0;
    while i < src.len()
        invariant
            i <= src@.len(),
            src@.len() == src.len(),
            off + src@.len() <= n,
            buf@.len() == n,
            old(buf)@.len() == n,
            buf@ == patched(old(buf)@, off as int, src@.subrange(0, i as int)),
        decreases src@.len() - i,
    {
        buf.set(off + i, src[i]);
        i += 1;
        assert(buf@ =~= patched(old(buf)@, off as int, src@.subrange(0, i as int)));
    }
    assert(src@.subrange(0, i as int) =~= src@);
}

impl MachO {
    /// Puts the whole file together from the segments. Nothing is changed,
    /// and an error is given back, where a segment does not hold its bytes.
    #[verifier::rlimit(50)]
    pub fn rewhole(&mut self) -> (r: Result<(), MachOError>)
        ensures
            segments_whole(old(self)@.segments) ==> r == Ok::<(), MachOError>(()) && final(self)@
                == (MachOView {
                whole_buf: Some(whole_file(old(self)@.segments)),
                ..old(self)@
            }),
            !segments_whole(old(self)@.segments) ==> r == Err::<(), MachOError>(
                MachOError::Truncated,
            ) && *final(self) == *old(self),
            final(self).linkedit == old(self).linkedit,
    {
        let ghost segs = self@.segments;
        let mut new_size: usize = 0;
        let mut i: usize = 0;
        while i < self.eb.segments.len()
            invariant
                i <= self.eb.segments@.len(),
                *self == *old(self),
                segs == self@.segments,
                forall|j: int|
                    0 <= j < i ==> segment_data(#[trigger] segs[j]).len() == segs[j].filesize
                        && segs[j].fileoff + segs[j].filesize <= usize::MAX,
                whole_size_from(segs, i as int, new_size as int) == whole_size_from(segs, 0, 0),
            decreases self.eb.segments@.len() - i,
        {
            let seg = &self.eb.segments[i];
            assert(segs[i as int] == seg@);
            let data = seg.get_data();
            assert(data@.len() == data.len());
            if data.len() as u64 != seg.filesize || seg.fileoff > usize::MAX as u64
                || seg.filesize > usize::MAX as u64 - seg.fileoff {
                return Err(MachOError::Truncated);
            }
            let end = (seg.fileoff + seg.filesize) as usize;
            if end > new_size {
                new_size = end;
            }
            i += 1;
        }
        assert(segments_whole(segs));
        let mut buf: Vec<u8> = Vec::new();
        append_zeros(&mut buf, new_size);
        assert(buf@ =~= zeros(new_size as nat));
        proof {
            lemma_whole_size_from(segs, 0, 0);
        }
        let mut i: usize = 0;
        while i < self.eb.segments.len()
            invariant
                i <= self.eb.segments@.len(),
                *self == *old(self),
                segs == self@.segments,
                segments_whole(segs),
                buf@.len() == new_size,
                forall|j: int|
                    0 <= j < segs.len() ==> segs[j].fileoff + segs[j].filesize <= new_size,
                laid_out_from(segs, i as int, buf@) == whole_file(segs),
            decreases self.eb.segments@.len() - i,
        {
            let seg = &self.eb.segments[i];
            assert(segs[i as int] == seg@);
            copy_into(&mut buf, seg.fileoff as usize, seg.get_data());
            i += 1;
        }
        self.eb.whole_buf = Some(buf);
        Ok(())
    }

    /// Nothing is done to the binds of an image.
    pub fn unbind(&mut self)
        ensures
            *final(self) == *old(self),
    {
    }

    /// Nothing is done to the Objective-C data of an image.
    pub fn fix_objc_from_cache(&mut self)
        ensures
            *final(self) == *old(self),
    {
    }
}

/// The byte strings of a list, one after the other.
fn join(cmds: &Vec<Vec<u8>>) -> (r: Vec<u8>)
    ensures
        r@ == joined(bytes_views(cmds@)),
{
    let mut r: Vec<u8> = Vec::new();
    let mut i: usize = 0;
    while i < cmds.len()
        invariant
            i <= cmds@.len(),
            joined_from(bytes_views(cmds@), i as int, r@) == joined(bytes_views(cmds@)),
        decreases cmds@.len() - i,
    {
        assert(bytes_views(cmds@)[i as int] == cmds@[i as int]@);
        append_bytes(&mut r, cmds[i].as_slice());
        i += 1;
    }
    r
}

} // verus!
