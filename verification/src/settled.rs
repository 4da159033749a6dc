//! Laws of rewriting: what an image that was rewritten keeps when it is
//! rewritten again.

use vstd::prelude::*;
use crate::commands::{updated_cmds};
use crate::diag::Warning;
use crate::exec::{SegmentView, segment_data};
use crate::image::{CODE_SIGNATURE, MachHeader, MachOView, NUM_LINKEDIT};
use crate::layout::{
    lemma_symtab_merged_idempotent, packed, section_moved, sections_placed, segment_offset,
    segments_placed, symtab_merged,
};
use crate::rewrite::{
    commands_space_end, first_section_from, header_size, is_linkedit_segment,
    is_text_segment, joined, last_linkedit_from, last_text_from, linkedit_renewed,
    reallocated, segments_resized, text_rewritten,
};
use crate::stable::{commands_in_order, holds_commands_of, lemma_commands_made_again, rank};
use crate::util::{Endian, aligned_up};

verus! {

/// Taking an offset away and adding it again gives back what was there.
pub proof fn lemma_wrapping_back(x: u64, a: u64)
    ensures
        x.wrapping_sub(a).wrapping_add(a) == x,
{
}

/// The offsets of segments depend on their sizes in the file alone.
pub proof fn lemma_segment_offset_by_size(a: Seq<SegmentView>, b: Seq<SegmentView>, i: int)
    requires
        a.len() == b.len(),
        forall|j: int| 0 <= j < a.len() ==> a[j].filesize == b[j].filesize,
    ensures
        segment_offset(a, i) == segment_offset(b, i),
    decreases i,
{
    if 0 < i <= a.len() {
        lemma_segment_offset_by_size(a, b, i - 1);
    }
}

/// Sections that were placed stay where they are when they are placed
/// again among segments that were placed.
#[verifier::rlimit(50)]
pub proof fn lemma_sections_placed_idempotent(
    sections: Seq<SegmentView>,
    segments: Seq<SegmentView>,
    placed: Seq<SegmentView>,
)
    requires
        placed.len() == segments.len(),
        forall|i: int|
            0 <= i < segments.len() ==> (#[trigger] placed[i]).fileoff == segment_offset(
                segments,
                i,
            ) && placed[i].filesize == segments[i].filesize,
    ensures
        sections_placed(sections_placed(sections, segments), placed) == sections_placed(
            sections,
            segments,
        ),
{
    let once = sections_placed(sections, segments);
    let again = segments_placed(placed);
    assert forall|i: int| 0 <= i < placed.len() implies (#[trigger] again[i]).fileoff
        == placed[i].fileoff by {
        lemma_segment_offset_by_size(placed, segments, i);
    }
    assert forall|k: int| 0 <= k < once.len() implies section_moved(once[k], placed, again)
        == once[k] by {
        let s = once[k];
        if s.filesize != 0 {
            match s.seg_idx {
                Some(i) => {
                    if i < placed.len() {
                        assert(again[i as int].fileoff == placed[i as int].fileoff);
                        lemma_wrapping_back(s.fileoff, placed[i as int].fileoff);
                    }
                },
                None => {},
            }
        }
    }
    assert(sections_placed(once, placed) =~= once);
}

/// Which segment is found to hold the link-edit data depends on the names
/// alone.
pub proof fn lemma_last_linkedit_by_name(
    a: Seq<SegmentView>,
    b: Seq<SegmentView>,
    i: int,
    acc: Option<usize>,
)
    requires
        a.len() == b.len(),
        forall|j: int| 0 <= j < a.len() ==> a[j].name == b[j].name,
    ensures
        last_linkedit_from(a, i, acc) == last_linkedit_from(b, i, acc),
    decreases a.len() - i,
{
    if 0 <= i < a.len() {
        lemma_last_linkedit_by_name(
            a,
            b,
            i + 1,
            if is_linkedit_segment(a[i]) {
                Some(i as usize)
            } else {
                acc
            },
        );
    }
}

/// The segment that is found to hold the link-edit data is one that does.
pub proof fn lemma_last_linkedit(segments: Seq<SegmentView>, i: int, acc: Option<usize>)
    requires
        0 <= i,
        segments.len() <= usize::MAX,
        acc is Some ==> acc->Some_0 < segments.len() && is_linkedit_segment(
            segments[acc->Some_0 as int],
        ),
    ensures
        match last_linkedit_from(segments, i, acc) {
            Some(t) => t < segments.len() && is_linkedit_segment(segments[t as int]),
            None => true,
        },
    decreases segments.len() - i,
{
    if i < segments.len() {
        lemma_last_linkedit(
            segments,
            i + 1,
            if is_linkedit_segment(segments[i]) {
                Some(i as usize)
            } else {
                acc
            },
        );
    }
}

/// The bytes of the header's segment after rewriting are as many as before,
/// when the commands fit their space.
pub proof fn lemma_text_rewritten_len(
    mh: MachHeader,
    end: Endian,
    is64: bool,
    cmds: Seq<Seq<u8>>,
    space_end: int,
    old_data: Seq<u8>,
)
    requires
        header_size(is64) + joined(cmds).len() <= space_end <= old_data.len(),
    ensures
        text_rewritten(mh, end, is64, cmds, space_end, old_data).len() == old_data.len(),
        mh.encoded(end).len() == 28,
{
    mh.lemma_round_trip(end);
}

/// Rewriting the bytes of the header's segment again, with the same header
/// and commands and a space that is no longer, changes nothing.
pub proof fn lemma_text_rewritten_again(
    mh: MachHeader,
    end: Endian,
    is64: bool,
    cmds: Seq<Seq<u8>>,
    space_end: int,
    shorter: int,
    old_data: Seq<u8>,
)
    requires
        header_size(is64) + joined(cmds).len() <= shorter <= space_end <= old_data.len(),
    ensures
        text_rewritten(
            mh,
            end,
            is64,
            cmds,
            shorter,
            text_rewritten(mh, end, is64, cmds, space_end, old_data),
        ) == text_rewritten(mh, end, is64, cmds, space_end, old_data),
{
    mh.lemma_round_trip(end);
    let once = text_rewritten(mh, end, is64, cmds, space_end, old_data);
    let twice = text_rewritten(mh, end, is64, cmds, shorter, once);
    assert(twice =~= once);
}

/// Where the link-edit data of an image lies in its file.
pub open spec fn linkedit_offset(m: MachOView) -> u64 {
    match last_linkedit_from(m.segments, 0, None) {
        Some(li) => m.segments[li as int].fileoff,
        None => 0,
    }
}

/// Whether the load commands of an image are those that would be made for
/// it: no edit of its segments, sections or link-edit data is waiting to
/// be written into them.
pub open spec fn commands_settled(m: MachOView, warnings: Seq<Warning>) -> bool {
    updated_cmds(m, linkedit_offset(m), packed(m.linkedit).allocs, warnings).0 == m.load_commands
}

/// Whether rewriting leaves the header's segment the one that starts with
/// the header.
pub open spec fn text_stays(m: MachOView, warnings: Seq<Warning>) -> bool {
    last_text_from(reallocated(m, warnings).image.segments, m.hdr_offset, 0, None)
        == last_text_from(m.segments, m.hdr_offset, 0, None)
}

/// An image that was rewritten is not changed by rewriting it again, where
/// the header's segment stays the one that starts with the header, and the
/// commands that were made are those that would be made again.
#[verifier::rlimit(50)]
pub proof fn lemma_reallocated_again(m: MachOView, w: Seq<Warning>, w2: Seq<Warning>)
    requires
        m.linkedit.len() == NUM_LINKEDIT,
        m.segments.len() <= usize::MAX,
        reallocated(m, w).result is Ok,
        text_stays(m, w),
        commands_settled(reallocated(m, w).image, w2),
    ensures
        reallocated(reallocated(m, w).image, w2).result is Ok,
        reallocated(reallocated(m, w).image, w2).image == reallocated(m, w).image,
{
    let m1 = linkedit_renewed(m);
    let p = packed(m1.linkedit);
    let linkedit_idx = last_linkedit_from(m.segments, 0, None);
    let text_idx = last_text_from(m.segments, m.hdr_offset, 0, None);
    crate::rewrite::lemma_last_from(m.segments, m.hdr_offset, 0, None);
    lemma_last_linkedit(m.segments, 0, None);
    let ti = text_idx->Some_0 as int;
    let m2 = MachOView {
        segments: segments_placed(m1.segments),
        sections: sections_placed(m1.sections, m1.segments),
        ..m1
    };
    let linkedit_off = match linkedit_idx {
        Some(li) => m2.segments[li as int].fileoff,
        None => 0,
    };
    let c = updated_cmds(m2, linkedit_off, p.allocs, w);
    let text = m2.segments[ti];
    let first = first_section_from(m2.sections, text_idx->Some_0, text.fileoff, 0, None);
    let space_end = commands_space_end(m.is64, m.mh.sizeofcmds, first);
    let mh = MachHeader { ncmds: c.0.len() as u32, sizeofcmds: joined(c.0).len() as u32, ..m.mh };
    let new_text = text_rewritten(mh, m.endian, m.is64, c.0, space_end, segment_data(text));
    let m3 = reallocated(m, w).image;
    assert(m3.segments == m2.segments.update(ti, SegmentView { data: Some(new_text), ..text }));
    assert(m3.load_commands == c.0);
    assert(m3.mh == mh);
    assert(segment_data(text).len() == text.filesize);
    lemma_text_rewritten_len(mh, m.endian, m.is64, c.0, space_end, segment_data(text));

    // The link-edit data and the segment that holds it stay.
    let regions = symtab_merged(m.linkedit.update(CODE_SIGNATURE as int, Seq::empty()));
    assert(m3.linkedit == regions);
    assert(regions.update(CODE_SIGNATURE as int, Seq::empty()) =~= regions);
    lemma_symtab_merged_idempotent(regions);
    let n1 = linkedit_renewed(m3);
    assert(n1.linkedit == regions);
    assert(n1.segments =~= m3.segments) by {
        assert forall|i: int| 0 <= i < m3.segments.len() implies segments_resized(
            m3.segments,
            p.linkedit,
        )[i] == m3.segments[i] by {
            assert(m2.segments[i].name == m.segments[i].name);
            if i == ti {
                assert(!is_linkedit_segment(m.segments[ti]));
            }
        }
    }
    assert(n1 == m3);
    assert forall|j: int| 0 <= j < m.segments.len() implies m.segments[j].name
        == m3.segments[j].name by {
        assert(m2.segments[j].name == m.segments[j].name);
    }
    lemma_last_linkedit_by_name(m.segments, m3.segments, 0, None);
    assert(last_linkedit_from(m3.segments, 0, None) == linkedit_idx);
    assert(last_text_from(m3.segments, m3.hdr_offset, 0, None) == text_idx);
    assert(segment_data(m3.segments[ti]) == new_text);

    // The segments and sections stay where they are.
    assert(segments_placed(m3.segments) =~= m3.segments) by {
        assert forall|i: int| 0 <= i < m3.segments.len() implies segment_offset(m3.segments, i)
            == m3.segments[i].fileoff by {
            lemma_segment_offset_by_size(m3.segments, m1.segments, i);
        }
    }
    lemma_sections_placed_idempotent(m1.sections, m1.segments, m3.segments);
    let n2 = MachOView {
        segments: segments_placed(n1.segments),
        sections: sections_placed(n1.sections, n1.segments),
        ..n1
    };
    assert(n2 == m3);
    if linkedit_idx is Some {
        assert(linkedit_idx->Some_0 as int != ti);
    }
    assert(linkedit_offset(m3) == linkedit_off);
    let c2 = updated_cmds(n2, linkedit_off, p.allocs, w2);
    assert(c2.0 == c.0);

    // The commands have the space they had.
    assert(joined(c.0).len() <= m.mh.sizeofcmds);
    let space2 = commands_space_end(m3.is64, mh.sizeofcmds, first);
    assert(space2 <= space_end);
    assert(header_size(m.is64) + joined(c.0).len() <= space2);
    lemma_text_rewritten_again(
        mh,
        m.endian,
        m.is64,
        c.0,
        space_end,
        space2,
        segment_data(text),
    );
    let mh2 = MachHeader {
        ncmds: c2.0.len() as u32,
        sizeofcmds: joined(c2.0).len() as u32,
        ..m3.mh
    };
    assert(mh2 == mh);
    assert(n2.segments.update(
        ti,
        SegmentView {
            data: Some(text_rewritten(mh2, m.endian, m.is64, c2.0, space2, new_text)),
            ..n2.segments[ti]
        },
    ) =~= m3.segments);
}

/// The file offset of the `i`-th segment when the offsets are counted
/// without regard to 64 bits.
pub open spec fn offset_sum(segments: Seq<SegmentView>, i: int) -> int
    decreases i,
{
    if i <= 0 || i > segments.len() {
        0
    } else {
        offset_sum(segments, i - 1) + aligned_up(segments[i - 1].filesize as int, 0x1000)
    }
}

/// Whether the segments, each on pages of its own, fit a file of 64 bits.
pub open spec fn layout_fits(segments: Seq<SegmentView>) -> bool {
    offset_sum(segments, segments.len() as int) <= u64::MAX
}

proof fn lemma_offset_sum_positive(segments: Seq<SegmentView>, i: int)
    ensures
        0 <= offset_sum(segments, i),
    decreases i,
{
    if 0 < i <= segments.len() {
        lemma_offset_sum_positive(segments, i - 1);
    }
}

proof fn lemma_offset_sum_grows(segments: Seq<SegmentView>, i: int, j: int)
    requires
        0 <= i <= j <= segments.len(),
    ensures
        0 <= offset_sum(segments, i) <= offset_sum(segments, j),
    decreases j - i,
{
    lemma_offset_sum_positive(segments, i);
    if i < j {
        lemma_offset_sum_grows(segments, i, j - 1);
    }
}

/// Where the segments fit the file, their offsets are the plain sums of
/// their sizes, rounded up to pages.
pub proof fn lemma_segment_offset_is_sum(segments: Seq<SegmentView>, i: int)
    requires
        layout_fits(segments),
        0 <= i <= segments.len(),
    ensures
        segment_offset(segments, i) == offset_sum(segments, i),
    decreases i,
{
    if i > 0 {
        lemma_segment_offset_is_sum(segments, i - 1);
        lemma_offset_sum_grows(segments, i, segments.len() as int);
        lemma_offset_sum_grows(segments, 0, i - 1);
        let x = segments[i - 1].filesize;
        let up = aligned_up(x as int, 0x1000);
        assert(up % 0x1000 == 0 && x <= up);
        assert(up <= u64::MAX);
        assert(x <= u64::MAX - 0xfff);
        crate::layout::lemma_page_aligned(x);
    }
}

/// Where the segments fit the file, every segment starts on a page of its
/// own, behind the bytes of the segment before it.
pub proof fn lemma_segments_placed_apart(segments: Seq<SegmentView>, i: int)
    requires
        layout_fits(segments),
        0 <= i < segments.len(),
    ensures
        segments_placed(segments)[i].fileoff % 0x1000 == 0,
        i + 1 < segments.len() ==> segments_placed(segments)[i].fileoff
            + segments[i].filesize <= segments_placed(segments)[i + 1].fileoff,
{
    lemma_segment_offset_is_sum(segments, i);
    lemma_offset_sum_pages(segments, i);
    if i + 1 < segments.len() {
        lemma_segment_offset_is_sum(segments, i + 1);
        assert(aligned_up(segments[i].filesize as int, 0x1000) >= segments[i].filesize);
    }
}

proof fn lemma_offset_sum_pages(segments: Seq<SegmentView>, i: int)
    ensures
        offset_sum(segments, i) % 0x1000 == 0,
    decreases i,
{
    if 0 < i <= segments.len() {
        lemma_offset_sum_pages(segments, i - 1);
        assert(aligned_up(segments[i - 1].filesize as int, 0x1000) % 0x1000 == 0);
    }
}

/// Whether the segment that starts with the header is the first that has
/// bytes in the file.
pub open spec fn header_segment_first(m: MachOView) -> bool {
    match last_text_from(m.segments, m.hdr_offset, 0, None) {
        Some(ti) => forall|i: int|
            0 <= i < ti ==> !is_linkedit_segment(#[trigger] m.segments[i])
                && m.segments[i].filesize == 0,
        None => true,
    }
}

/// Among segments of which exactly one starts with the header, that one is
/// found.
proof fn lemma_only_text(segments: Seq<SegmentView>, hdr_offset: usize, ti: int, i: int)
    requires
        0 <= i <= segments.len(),
        0 <= ti < segments.len() <= usize::MAX,
        forall|j: int|
            0 <= j < segments.len() ==> (is_text_segment(#[trigger] segments[j], hdr_offset) <==> j
                == ti),
    ensures
        last_text_from(
            segments,
            hdr_offset,
            i,
            if i > ti {
                Some(ti as usize)
            } else {
                None
            },
        ) == Some(ti as usize),
    decreases segments.len() - i,
{
    if i < segments.len() {
        lemma_only_text(segments, hdr_offset, ti, i + 1);
    }
}

/// Whether an image can be rewritten again and again: it starts its file,
/// its commands are in order, the segment that starts with the header is the
/// first that has bytes in the file, and its segments fit the file.
pub open spec fn rewritable_again(m: MachOView) -> bool {
    &&& m.linkedit.len() == NUM_LINKEDIT
    &&& m.hdr_offset == 0
    &&& commands_in_order(m)
    &&& header_segment_first(m)
    &&& layout_fits(linkedit_renewed(m).segments)
}

/// In an image that can be rewritten again, the segment that starts with
/// the header is still the one after rewriting.
#[verifier::rlimit(50)]
pub proof fn lemma_text_stays(m: MachOView, w: Seq<Warning>)
    requires
        rewritable_again(m),
        reallocated(m, w).result is Ok,
    ensures
        text_stays(m, w),
{
    let m1 = linkedit_renewed(m);
    let text_idx = last_text_from(m.segments, m.hdr_offset, 0, None);
    crate::rewrite::lemma_last_from(m.segments, m.hdr_offset, 0, None);
    let ti = text_idx->Some_0 as int;
    let m3 = reallocated(m, w).image;
    let segs = m1.segments;
    assert(m3.segments.len() == segs.len());
    assert forall|j: int| 0 <= j <= ti implies offset_sum(segs, j) == 0 by {
        lemma_zero_sum(segs, ti, j);
    }
    assert forall|j: int| 0 <= j < segs.len() implies (is_text_segment(
        #[trigger] m3.segments[j],
        m.hdr_offset,
    ) <==> j == ti) by {
        lemma_segment_offset_is_sum(segs, j);
        assert(m3.segments[j].fileoff == segment_offset(segs, j));
        assert(m3.segments[j].filesize == segs[j].filesize);
        assert(m3.segments[j].name == m.segments[j].name);
        if j > ti {
            lemma_offset_sum_grows(segs, ti + 1, j);
            assert(offset_sum(segs, ti) == 0);
            assert(segs[ti].filesize > 0);
            assert(aligned_up(segs[ti].filesize as int, 0x1000) >= segs[ti].filesize);
        }
    }
    lemma_only_text(m3.segments, m.hdr_offset, ti, 0);
}

proof fn lemma_zero_sum(segments: Seq<SegmentView>, ti: int, j: int)
    requires
        0 <= j <= ti <= segments.len(),
        forall|i: int| 0 <= i < ti ==> (#[trigger] segments[i]).filesize == 0,
    ensures
        offset_sum(segments, j) == 0,
    decreases j,
{
    if j > 0 {
        lemma_zero_sum(segments, ti, j - 1);
        assert(segments[j - 1].filesize == 0);
    }
}

/// The rank of a section among those of its segment does not depend on
/// where the sections lie.
proof fn lemma_rank_by_segment(a: Seq<SegmentView>, b: Seq<SegmentView>, segi: usize, j: int)
    requires
        a.len() == b.len(),
        forall|t: int| 0 <= t < a.len() ==> a[t].seg_idx == b[t].seg_idx,
        j <= a.len(),
    ensures
        rank(a, segi, j) == rank(b, segi, j),
    decreases j,
{
    if j > 0 {
        lemma_rank_by_segment(a, b, segi, j - 1);
    }
}

/// Rewriting an image that can be rewritten again, and was rewritten, gives
/// the same image again: the same segments with the same bytes, the same
/// header and the same load commands.
#[verifier::rlimit(50)]
pub proof fn lemma_reallocate_idempotent(m: MachOView, w: Seq<Warning>, w2: Seq<Warning>)
    requires
        rewritable_again(m),
        reallocated(m, w).result is Ok,
    ensures
        reallocated(reallocated(m, w).image, w2).result is Ok,
        reallocated(reallocated(m, w).image, w2).image == reallocated(m, w).image,
{
    lemma_text_stays(m, w);
    let m1 = linkedit_renewed(m);
    let p = packed(m1.linkedit);
    let linkedit_idx = last_linkedit_from(m.segments, 0, None);
    let text_idx = last_text_from(m.segments, m.hdr_offset, 0, None);
    crate::rewrite::lemma_last_from(m.segments, m.hdr_offset, 0, None);
    lemma_last_linkedit(m.segments, 0, None);
    let ti = text_idx->Some_0 as int;
    let m2 = MachOView {
        segments: segments_placed(m1.segments),
        sections: sections_placed(m1.sections, m1.segments),
        ..m1
    };
    let linkedit_off = match linkedit_idx {
        Some(li) => m2.segments[li as int].fileoff,
        None => 0,
    };
    let m3 = reallocated(m, w).image;
    // The commands of the image as it is laid out are in order.
    assert(commands_in_order(m2)) by {
        assert forall|i: int| 0 <= i < m2.segments.len() implies (#[trigger] m2.segments[i]).private
            == Some(i as usize) by {
            assert(m.segments[i].private == Some(i as usize));
        }
        assert forall|j: int| 0 <= j < m2.sections.len() implies match (
            (#[trigger] m2.sections[j]).seg_idx,
            m2.sections[j].private,
        ) {
            (Some(si), Some(q)) => q == rank(m2.sections, si, j),
            _ => true,
        } by {
            assert(m2.sections[j].seg_idx == m.sections[j].seg_idx);
            assert(m2.sections[j].private == m.sections[j].private);
            match m.sections[j].seg_idx {
                Some(si) => {
                    lemma_rank_by_segment(m.sections, m2.sections, si, j);
                },
                None => {},
            }
        }
    }
    assert(holds_commands_of(m3, m2, linkedit_off, p.allocs, w));
    lemma_commands_made_again(m2, m3, linkedit_off, p.allocs, w, w2);
    // The link-edit data lies where it lay.
    assert forall|j: int| 0 <= j < m.segments.len() implies m.segments[j].name
        == m3.segments[j].name by {
        assert(m2.segments[j].name == m.segments[j].name);
    }
    lemma_last_linkedit_by_name(m.segments, m3.segments, 0, None);
    if linkedit_idx is Some {
        assert(linkedit_idx->Some_0 as int != ti);
    }
    assert(linkedit_offset(m3) == linkedit_off);
    assert(m3.linkedit == m1.linkedit);
    assert(commands_settled(m3, w2));
    lemma_reallocated_again(m, w, w2);
}

} // verus!
