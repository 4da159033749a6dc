//! The layout of a rewritten image: the symbol table put together again, the
//! link-edit regions packed into one block, and the file offsets of segments
//! and sections counted anew.

use vstd::prelude::*;
use crate::diag::Warning;
use crate::exec::{Segment, SegmentView, segment_views};
use crate::image::{
    EXTDEFSYM, LOCALSYM, MachO, MachOView, NUM_LINKEDIT, SYMTAB, UNDEFSYM, bytes_views,
};
use crate::util::{aligned_up, append_bytes, copy_range};

verus! {

/// `x` rounded up to a whole number of pages of 4096 bytes, within 64 bits.
pub open spec fn page_aligned(x: u64) -> u64 {
    x.wrapping_add(0xfff) & !0xfffu64
}

/// Where rounding up does not pass 64 bits, it gives the least multiple of
/// the page size that is not below `x`.
pub proof fn lemma_page_aligned(x: u64)
    requires
        x <= u64::MAX - 0xfff,
    ensures
        page_aligned(x) == aligned_up(x as int, 0x1000),
        page_aligned(x) % 0x1000 == 0,
        x <= page_aligned(x) < x + 0x1000,
{
    let y = (x + 0xfff) as u64;
    assert(x.wrapping_add(0xfff) == y);
    let r = y & !0xfffu64;
    assert(r % 0x1000 == 0 && r <= y && y - r == y % 0x1000) by (bit_vector)
        requires
            r == y & !0xfffu64,
    ;
}

pub fn align_to_page(x: u64) -> (r: u64)
    ensures
        r == page_aligned(x),
{
    x.wrapping_add(0xfff) & !0xfffu64
}

/// A name as a field of 16 bytes: cut where it is longer, filled with NULs
/// where it is shorter. No name is the empty name.
pub open spec fn name_field(name: Option<Seq<u8>>) -> Seq<u8> {
    let n = match name {
        Some(n) => n,
        None => Seq::empty(),
    };
    Seq::new(
        16,
        |i: int|
            if i < n.len() {
                n[i]
            } else {
                0u8
            },
    )
}

/// Whether a name is too long for its field.
pub open spec fn name_too_long(name: Option<Seq<u8>>) -> bool {
    match name {
        Some(n) => n.len() > 16,
        None => false,
    }
}

/// The name of a segment or section as a field of 16 bytes. `too_long` is the
/// warning for a name that had to be cut.
pub fn seg_name_to_macho(seg: &Segment, too_long: Warning, warnings: &mut Vec<Warning>) -> (r: Vec<
    u8,
>)
    ensures
        r@ == name_field(seg@.name),
        final(warnings)@ == (if name_too_long(seg@.name) {
            old(warnings)@.push(too_long)
        } else {
            old(warnings)@
        }),
{
    let mut r: Vec<u8> = Vec::new();
    let empty: Vec<u8> = Vec::new();
    let name: &Vec<u8> = match &seg.name {
        Some(n) => n,
        None => &empty,
    };
    if name.len() > 16 {
        warnings.push(too_long);
    }
    let mut i: usize = 0;
    while i < 16
        invariant
            i <= 16,
            r@.len() == i,
            forall|j: int|
                0 <= j < i ==> r@[j] == (if j < name@.len() {
                    name@[j]
                } else {
                    0u8
                }),
        decreases 16 - i,
    {
        r.push(
            if i < name.len() {
                name[i]
            } else {
                0
            },
        );
        i += 1;
    }
    assert(r@ =~= name_field(seg@.name));
    r
}

/// The regions with the symbol table made of its three parts again: the
/// local, the external and the undefined symbols, in this order.
pub open spec fn symtab_merged(regions: Seq<Seq<u8>>) -> Seq<Seq<u8>>
    recommends
        regions.len() == NUM_LINKEDIT,
{
    regions.update(
        SYMTAB as int,
        regions[LOCALSYM as int] + regions[EXTDEFSYM as int] + regions[UNDEFSYM as int],
    )
}

/// Putting the symbol table together a second time changes nothing.
pub proof fn lemma_symtab_merged_idempotent(regions: Seq<Seq<u8>>)
    requires
        regions.len() == NUM_LINKEDIT,
    ensures
        symtab_merged(symtab_merged(regions)) == symtab_merged(regions),
{
    assert(symtab_merged(symtab_merged(regions)) =~= symtab_merged(regions));
}

/// The regions with the three parts of the symbol table cut out of it anew,
/// each given by where it starts and how long it is.
pub open spec fn symtab_split(regions: Seq<Seq<u8>>, parts: Seq<(usize, usize)>) -> Seq<Seq<u8>>
    recommends
        regions.len() == NUM_LINKEDIT,
        parts.len() == 3,
{
    let t = regions[SYMTAB as int];
    regions.update(LOCALSYM as int, t.subrange(parts[0].0 as int, parts[0].0 + parts[0].1)).update(
        EXTDEFSYM as int,
        t.subrange(parts[1].0 as int, parts[1].0 + parts[1].1),
    ).update(UNDEFSYM as int, t.subrange(parts[2].0 as int, parts[2].0 + parts[2].1))
}

proof fn lemma_views_update(s: Seq<Vec<u8>>, i: int, x: Vec<u8>)
    requires
        0 <= i < s.len(),
    ensures
        bytes_views(s.update(i, x)) == bytes_views(s).update(i, x@),
{
    assert(bytes_views(s.update(i, x)) =~= bytes_views(s).update(i, x@));
}

/// What packing the link-edit regions gives: the block, and for each region
/// where it starts and how long it is. A part of the symbol table starts
/// where it stands in the symbol table; every other region where it stands
/// in the block.
pub struct Packed {
    pub linkedit: Seq<u8>,
    pub allocs: Seq<(usize, usize)>,
    /// The length of the parts of the symbol table so far.
    pub symoff: int,
}

/// The regions from the `i`-th on, packed after what is packed already.
pub open spec fn packed_from(regions: Seq<Seq<u8>>, i: int, p: Packed) -> Packed
    decreases NUM_LINKEDIT - i,
{
    if i < 0 || i >= NUM_LINKEDIT {
        p
    } else if i >= LOCALSYM {
        packed_from(
            regions,
            i + 1,
            Packed {
                allocs: p.allocs.push((p.symoff as usize, regions[i].len() as usize)),
                symoff: p.symoff + regions[i].len(),
                ..p
            },
        )
    } else {
        packed_from(
            regions,
            i + 1,
            Packed {
                linkedit: p.linkedit + regions[i],
                allocs: p.allocs.push((p.linkedit.len() as usize, regions[i].len() as usize)),
                ..p
            },
        )
    }
}

/// The link-edit regions packed into one block.
pub open spec fn packed(regions: Seq<Seq<u8>>) -> Packed {
    packed_from(
        regions,
        0,
        Packed { linkedit: Seq::empty(), allocs: Seq::empty(), symoff: 0 },
    )
}

/// Packing gives one place for each region.
pub proof fn lemma_packed_from(regions: Seq<Seq<u8>>, i: int, p: Packed)
    requires
        0 <= i <= NUM_LINKEDIT,
        p.allocs.len() == i,
    ensures
        packed_from(regions, i, p).allocs.len() == NUM_LINKEDIT,
    decreases NUM_LINKEDIT - i,
{
    if i < NUM_LINKEDIT {
        if i >= LOCALSYM {
            lemma_packed_from(
                regions,
                i + 1,
                Packed {
                    allocs: p.allocs.push((p.symoff as usize, regions[i].len() as usize)),
                    symoff: p.symoff + regions[i].len(),
                    ..p
                },
            );
        } else {
            lemma_packed_from(
                regions,
                i + 1,
                Packed {
                    linkedit: p.linkedit + regions[i],
                    allocs: p.allocs.push((p.linkedit.len() as usize, regions[i].len() as usize)),
                    ..p
                },
            );
        }
    }
}

/// Whether the first `n` regions stand in the block where their places
/// say.
pub open spec fn stand_in_block(regions: Seq<Seq<u8>>, p: Packed, n: int) -> bool {
    forall|j: int|
        0 <= j < n ==> {
            let place = #[trigger] p.allocs[j];
            &&& place.1 == regions[j].len()
            &&& place.0 + place.1 <= p.linkedit.len()
            &&& p.linkedit.subrange(place.0 as int, place.0 + place.1) == regions[j]
        }
}

proof fn lemma_packed_from_places(regions: Seq<Seq<u8>>, i: int, p: Packed)
    requires
        regions.len() == NUM_LINKEDIT,
        0 <= i <= NUM_LINKEDIT,
        p.allocs.len() == i,
        stand_in_block(
            regions,
            p,
            if i < LOCALSYM {
                i
            } else {
                LOCALSYM as int
            },
        ),
        packed_from(regions, i, p).linkedit.len() <= usize::MAX,
        forall|j: int| 0 <= j < NUM_LINKEDIT ==> (#[trigger] regions[j]).len() <= usize::MAX,
    ensures
        stand_in_block(regions, packed_from(regions, i, p), LOCALSYM as int),
        packed_from(regions, i, p).linkedit.len() >= p.linkedit.len(),
    decreases NUM_LINKEDIT - i,
{
    if i < NUM_LINKEDIT {
        if i >= LOCALSYM {
            let next = Packed {
                allocs: p.allocs.push((p.symoff as usize, regions[i].len() as usize)),
                symoff: p.symoff + regions[i].len(),
                ..p
            };
            assert forall|j: int| 0 <= j < LOCALSYM implies {
                let place = #[trigger] next.allocs[j];
                &&& place.1 == regions[j].len()
                &&& place.0 + place.1 <= next.linkedit.len()
                &&& next.linkedit.subrange(place.0 as int, place.0 + place.1) == regions[j]
            } by {
                assert(next.allocs[j] == p.allocs[j]);
            }
            lemma_packed_from_places(regions, i + 1, next);
        } else {
            let next = Packed {
                linkedit: p.linkedit + regions[i],
                allocs: p.allocs.push((p.linkedit.len() as usize, regions[i].len() as usize)),
                ..p
            };
            lemma_packed_from_grows(regions, i + 1, next);
            assert(p.linkedit.len() <= usize::MAX);
            assert forall|j: int| 0 <= j < i + 1 implies {
                let place = #[trigger] next.allocs[j];
                &&& place.1 == regions[j].len()
                &&& place.0 + place.1 <= next.linkedit.len()
                &&& next.linkedit.subrange(place.0 as int, place.0 + place.1) == regions[j]
            } by {
                if j < i {
                    assert(next.allocs[j] == p.allocs[j]);
                    let place = p.allocs[j];
                    assert(next.linkedit.subrange(place.0 as int, place.0 + place.1)
                        =~= p.linkedit.subrange(place.0 as int, place.0 + place.1));
                } else {
                    let place = next.allocs[j];
                    assert(next.linkedit.subrange(place.0 as int, place.0 + place.1)
                        =~= regions[i]);
                }
            }
            lemma_packed_from_places(regions, i + 1, next);
        }
    }
}

proof fn lemma_packed_from_grows(regions: Seq<Seq<u8>>, i: int, p: Packed)
    requires
        0 <= i,
    ensures
        packed_from(regions, i, p).linkedit.len() >= p.linkedit.len(),
    decreases NUM_LINKEDIT - i,
{
    if i < NUM_LINKEDIT {
        if i >= LOCALSYM {
            lemma_packed_from_grows(
                regions,
                i + 1,
                Packed {
                    allocs: p.allocs.push((p.symoff as usize, regions[i].len() as usize)),
                    symoff: p.symoff + regions[i].len(),
                    ..p
                },
            );
        } else {
            lemma_packed_from_grows(
                regions,
                i + 1,
                Packed {
                    linkedit: p.linkedit + regions[i],
                    allocs: p.allocs.push((p.linkedit.len() as usize, regions[i].len() as usize)),
                    ..p
                },
            );
        }
    }
}

/// Every region that is no part of the symbol table stands in the packed
/// block at the place recorded for it, whole and unchanged.
pub proof fn lemma_packed_places(regions: Seq<Seq<u8>>)
    requires
        regions.len() == NUM_LINKEDIT,
        packed(regions).linkedit.len() <= usize::MAX,
        forall|j: int| 0 <= j < NUM_LINKEDIT ==> (#[trigger] regions[j]).len() <= usize::MAX,
    ensures
        stand_in_block(regions, packed(regions), LOCALSYM as int),
{
    lemma_packed_from_places(
        regions,
        0,
        Packed { linkedit: Seq::empty(), allocs: Seq::empty(), symoff: 0 },
    );
}

/// One step of counting file offsets: a section with bytes in the file is
/// moved by as much as its segment is; one without gets offset 0.
pub open spec fn section_moved(
    sect: SegmentView,
    before: Seq<SegmentView>,
    after: Seq<SegmentView>,
) -> SegmentView {
    if sect.filesize == 0 {
        SegmentView { fileoff: 0, ..sect }
    } else {
        match sect.seg_idx {
            Some(i) => if i < before.len() && i < after.len() {
                SegmentView {
                    fileoff: sect.fileoff.wrapping_sub(before[i as int].fileoff).wrapping_add(
                        after[i as int].fileoff,
                    ),
                    ..sect
                }
            } else {
                sect
            },
            None => sect,
        }
    }
}

/// The file offset of the `i`-th segment when the segments follow each
/// other from offset 0, each on a page of its own.
pub open spec fn segment_offset(segments: Seq<SegmentView>, i: int) -> u64
    decreases i,
{
    if i <= 0 || i > segments.len() {
        0
    } else {
        segment_offset(segments, i - 1).wrapping_add(page_aligned(segments[i - 1].filesize))
    }
}

/// The segments with their file offsets counted anew.
pub open spec fn segments_placed(segments: Seq<SegmentView>) -> Seq<SegmentView> {
    Seq::new(
        segments.len(),
        |i: int| SegmentView { fileoff: segment_offset(segments, i), ..segments[i] },
    )
}

/// The sections with their file offsets counted anew.
pub open spec fn sections_placed(sections: Seq<SegmentView>, segments: Seq<SegmentView>) -> Seq<
    SegmentView,
> {
    Seq::new(
        sections.len(),
        |i: int| section_moved(sections[i], segments, segments_placed(segments)),
    )
}

/// Counting the file offsets of segments a second time changes nothing.
pub proof fn lemma_segments_placed_idempotent(segments: Seq<SegmentView>)
    ensures
        segments_placed(segments_placed(segments)) == segments_placed(segments),
{
    let once = segments_placed(segments);
    assert forall|i: int| 0 <= i <= segments.len() implies segment_offset(once, i)
        == segment_offset(segments, i) by {
        lemma_segment_offset_same(segments, once, i);
    }
    assert(segments_placed(once) =~= once);
}

proof fn lemma_segment_offset_same(a: Seq<SegmentView>, b: Seq<SegmentView>, i: int)
    requires
        a.len() == b.len(),
        forall|j: int| 0 <= j < a.len() ==> a[j].filesize == b[j].filesize,
        0 <= i <= a.len(),
    ensures
        segment_offset(a, i) == segment_offset(b, i),
    decreases i,
{
    if i > 0 {
        lemma_segment_offset_same(a, b, i - 1);
    }
}

proof fn lemma_segment_views_update(s: Seq<Segment>, i: int, x: Segment)
    requires
        0 <= i < s.len(),
    ensures
        segment_views(s.update(i, x)) == segment_views(s).update(i, x@),
{
    assert(segment_views(s.update(i, x)) =~= segment_views(s).update(i, x@));
}

impl MachO {
    /// Counts the file offsets of segments and sections anew: the segments
    /// follow each other from offset 0, each on a page of its own, and every
    /// section keeps its place within its segment.
    #[verifier::rlimit(50)]
    pub fn reallocate_seg_offsets(&mut self)
        ensures
            final(self)@ == (MachOView {
                segments: segments_placed(old(self)@.segments),
                sections: sections_placed(old(self)@.sections, old(self)@.segments),
                ..old(self)@
            }),
            final(self).linkedit == old(self).linkedit,
    {
        let ghost segs0 = self@.segments;
        let ghost sects0 = self@.sections;
        let mut new_offs: Vec<u64> = Vec::new();
        let mut off: u64 = 0;
        let mut i: usize = 0;
        while i < self.eb.segments.len()
            invariant
                i <= self.eb.segments@.len(),
                *self == *old(self),
                new_offs@.len() == i,
                off == segment_offset(segs0, i as int),
                segs0 == self@.segments,
                forall|j: int| 0 <= j < i ==> new_offs@[j] == segment_offset(segs0, j),
            decreases self.eb.segments@.len() - i,
        {
            new_offs.push(off);
            assert(segs0[i as int] == self.eb.segments@[i as int]@);
            off = off.wrapping_add(align_to_page(self.eb.segments[i].filesize));
            i += 1;
        }
        let mut k: usize = 0;
        while k < self.eb.sections.len()
            invariant
                k <= self.eb.sections@.len(),
                self.eb.sections@.len() == sects0.len(),
                new_offs@.len() == segs0.len(),
                forall|j: int| 0 <= j < segs0.len() ==> new_offs@[j] == segment_offset(segs0, j),
                self@ == (MachOView { sections: self@.sections, ..old(self)@ }),
                segs0 == segment_views(self.eb.segments@),
                self.linkedit == old(self).linkedit,
                forall|j: int|
                    0 <= j < k ==> self@.sections[j] == section_moved(
                        sects0[j],
                        segs0,
                        segments_placed(segs0),
                    ),
                forall|j: int| k <= j < sects0.len() ==> self@.sections[j] == sects0[j],
            decreases self.eb.sections@.len() - k,
        {
            let ghost before = self.eb.sections@;
            assert(self@.sections[k as int] == sects0[k as int]);
            assert(self@.sections[k as int] == self.eb.sections@[k as int]@);
            let fileoff = self.eb.sections[k].fileoff;
            let new_fileoff = if self.eb.sections[k].filesize == 0 {
                0
            } else {
                match self.eb.sections[k].seg_idx {
                    Some(si) => if si < self.eb.segments.len() {
                        assert(segs0[si as int] == self.eb.segments@[si as int]@);
                        fileoff.wrapping_sub(self.eb.segments[si].fileoff).wrapping_add(
                            new_offs[si],
                        )
                    } else {
                        fileoff
                    },
                    None => fileoff,
                }
            };
            self.eb.sections[k].fileoff = new_fileoff;
            proof {
                lemma_segment_views_update(before, k as int, self.eb.sections@[k as int]);
                assert(self.eb.sections@ =~= before.update(k as int, self.eb.sections@[k as int]));
            }
            k += 1;
        }
        assert(self@.sections =~= sections_placed(sects0, segs0));
        let mut i: usize = 0;
        while i < self.eb.segments.len()
            invariant
                i <= self.eb.segments@.len(),
                self.eb.segments@.len() == segs0.len(),
                new_offs@.len() == segs0.len(),
                forall|j: int| 0 <= j < segs0.len() ==> new_offs@[j] == segment_offset(segs0, j),
                self@ == (MachOView {
                    segments: self@.segments,
                    sections: sections_placed(sects0, segs0),
                    ..old(self)@
                }),
                self.linkedit == old(self).linkedit,
                forall|j: int|
                    0 <= j < i ==> self@.segments[j] == (SegmentView {
                        fileoff: segment_offset(segs0, j),
                        ..segs0[j]
                    }),
                forall|j: int| i <= j < segs0.len() ==> self@.segments[j] == segs0[j],
            decreases self.eb.segments@.len() - i,
        {
            let ghost before = self.eb.segments@;
            assert(self@.segments[i as int] == segs0[i as int]);
            assert(self@.segments[i as int] == self.eb.segments@[i as int]@);
            self.eb.segments[i].fileoff = new_offs[i];
            proof {
                lemma_segment_views_update(before, i as int, self.eb.segments@[i as int]);
                assert(self.eb.segments@ =~= before.update(i as int, self.eb.segments@[i as int]));
            }
            i += 1;
        }
        assert(self@.segments =~= segments_placed(segs0));
    }

    /// Puts the symbol table together from its three parts.
    #[verifier::rlimit(50)]
    pub fn xsym_to_symtab(&mut self)
        requires
            old(self).wf(),
        ensures
            final(self).wf(),
            final(self)@ == (MachOView {
                linkedit: symtab_merged(old(self)@.linkedit),
                ..old(self)@
            }),
    {
        let mut new_vec: Vec<u8> = Vec::new();
        append_bytes(&mut new_vec, self.linkedit[LOCALSYM].as_slice());
        append_bytes(&mut new_vec, self.linkedit[EXTDEFSYM].as_slice());
        append_bytes(&mut new_vec, self.linkedit[UNDEFSYM].as_slice());
        proof {
            lemma_views_update(self.linkedit@, SYMTAB as int, new_vec);
            assert(new_vec@ =~= self@.linkedit[LOCALSYM as int] + self@.linkedit[EXTDEFSYM as int]
                + self@.linkedit[UNDEFSYM as int]);
        }
        self.linkedit.set(SYMTAB, new_vec);
    }

    /// Cuts the three parts of the symbol table out of it anew.
    #[verifier::rlimit(50)]
    pub fn symtab_to_xsym(&mut self, parts: &[(usize, usize); 3])
        requires
            old(self).wf(),
            forall|k: int|
                0 <= k < 3 ==> (#[trigger] parts@[k]).0 + parts@[k].1 <= old(
                    self,
                )@.linkedit[SYMTAB as int].len(),
        ensures
            final(self).wf(),
            final(self)@ == (MachOView {
                linkedit: symtab_split(old(self)@.linkedit, parts@),
                ..old(self)@
            }),
    {
        assert(parts@[0].0 + parts@[0].1 <= self@.linkedit[SYMTAB as int].len());
        assert(parts@[1].0 + parts@[1].1 <= self@.linkedit[SYMTAB as int].len());
        assert(parts@[2].0 + parts@[2].1 <= self@.linkedit[SYMTAB as int].len());
        let ghost t = self@.linkedit[SYMTAB as int];
        let symtab = self.linkedit[SYMTAB].as_slice();
        assert(symtab@.len() == symtab.len());
        let a = copy_range(symtab, parts[0].0, parts[0].0 + parts[0].1);
        let b = copy_range(symtab, parts[1].0, parts[1].0 + parts[1].1);
        let c = copy_range(symtab, parts[2].0, parts[2].0 + parts[2].1);
        proof {
            lemma_views_update(self.linkedit@, LOCALSYM as int, a);
        }
        self.linkedit.set(LOCALSYM, a);
        proof {
            lemma_views_update(self.linkedit@, EXTDEFSYM as int, b);
        }
        self.linkedit.set(EXTDEFSYM, b);
        proof {
            lemma_views_update(self.linkedit@, UNDEFSYM as int, c);
        }
        self.linkedit.set(UNDEFSYM, c);
    }

    /// Packs the link-edit regions into one block.
    #[verifier::rlimit(50)]
    pub fn reallocate_linkedit(&self) -> (r: (Vec<u8>, Vec<(usize, usize)>))
        requires
            self.wf(),
            self@.linkedit[LOCALSYM as int].len() + self@.linkedit[EXTDEFSYM as int].len()
                + self@.linkedit[UNDEFSYM as int].len() <= usize::MAX,
        ensures
            r.0@ == packed(self@.linkedit).linkedit,
            r.1@ == packed(self@.linkedit).allocs,
            r.1@.len() == NUM_LINKEDIT,
    {
        let ghost regions = self@.linkedit;
        let ghost target = packed(regions);
        let mut linkedit: Vec<u8> = Vec::new();
        let mut allocs: Vec<(usize, usize)> = Vec::new();
        let mut symoff: usize = 0;
        let mut i: usize = 0;
        proof {
            lemma_packed_from(
                regions,
                0,
                Packed { linkedit: Seq::empty(), allocs: Seq::empty(), symoff: 0 },
            );
        }
        while i < NUM_LINKEDIT
            invariant
                i <= NUM_LINKEDIT,
                self.wf(),
                regions == self@.linkedit,
                allocs@.len() == i,
                regions[LOCALSYM as int].len() + regions[EXTDEFSYM as int].len()
                    + regions[UNDEFSYM as int].len() <= usize::MAX,
                symoff == (if i <= LOCALSYM {
                    0
                } else if i == EXTDEFSYM {
                    regions[LOCALSYM as int].len()
                } else if i == UNDEFSYM {
                    regions[LOCALSYM as int].len() + regions[EXTDEFSYM as int].len()
                } else {
                    regions[LOCALSYM as int].len() + regions[EXTDEFSYM as int].len()
                        + regions[UNDEFSYM as int].len()
                }),
                packed_from(
                    regions,
                    i as int,
                    Packed { linkedit: linkedit@, allocs: allocs@, symoff: symoff as int },
                ) == target,
            decreases NUM_LINKEDIT - i,
        {
            let buf = self.linkedit[i].as_slice();
            assert(buf@ == regions[i as int]);
            assert(buf@.len() == buf.len());
            if i >= LOCALSYM {
                allocs.push((symoff, buf.len()));
                symoff = symoff + buf.len();
            } else {
                allocs.push((linkedit.len(), buf.len()));
                append_bytes(&mut linkedit, buf);
            }
            i += 1;
        }
        (linkedit, allocs)
    }
}

} // verus!
