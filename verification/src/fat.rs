//! Fat files, which hold one image for each of several architectures, and
//! the probers that say what a buffer holds.

use vstd::prelude::*;
use crate::defs::{FAT_ARCH_SIZE, FAT_HEADER_SIZE, FAT_MAGIC};
use crate::desc::{arch_desc, bytes_of, decimal_digits, image_desc, mach_arch_desc, push_decimal};
use crate::diag::Warning;
use crate::exec::{Arch, ProbeResult};
use crate::image::{MachO, MachOError};
use crate::load_commands::parsed_image;
use crate::util::{Endian, append_bytes, bytes_eq, copy_range, get_u32, read_u32};

verus! {

/// One entry of the directory of a fat file.
#[derive(Clone, Copy, Debug, PartialEq, Eq, Structural)]
pub struct FatArch {
    pub cputype: u32,
    pub cpusubtype: u32,
    pub offset: u32,
    pub size: u32,
    pub align: u32,
}

/// The `i`-th entry of the directory. All fields of a fat file are
/// big-endian.
pub open spec fn fat_arch_at(buf: Seq<u8>, i: int) -> FatArch {
    let off = FAT_HEADER_SIZE + i * FAT_ARCH_SIZE;
    FatArch {
        cputype: get_u32(buf, off, Endian::BigEndian),
        cpusubtype: get_u32(buf, off + 4, Endian::BigEndian),
        offset: get_u32(buf, off + 8, Endian::BigEndian),
        size: get_u32(buf, off + 12, Endian::BigEndian),
        align: get_u32(buf, off + 16, Endian::BigEndian),
    }
}

/// Whether a buffer starts with the header of a fat file.
pub open spec fn is_fat(buf: Seq<u8>) -> bool {
    buf.len() >= FAT_HEADER_SIZE && get_u32(buf, 0, Endian::BigEndian) == FAT_MAGIC
}

/// The number of entries that the header declares.
pub open spec fn fat_count(buf: Seq<u8>) -> u32 {
    get_u32(buf, 4, Endian::BigEndian)
}

/// Whether the buffer has room for the directory that its header declares.
pub open spec fn fat_has_room(buf: Seq<u8>) -> bool {
    buf.len() >= FAT_HEADER_SIZE + fat_count(buf) * FAT_ARCH_SIZE
}

/// Whether the image of an entry lies within a buffer of `len` bytes.
pub open spec fn arch_in_range(fa: FatArch, len: nat) -> bool {
    fa.offset + fa.size <= len
}

/// The entries from the `i`-th on whose images lie within the buffer, each
/// with its place in the directory, added to `out`; every other entry earns a
/// warning.
pub open spec fn fat_archs_from(
    buf: Seq<u8>,
    i: int,
    out: Seq<(u64, FatArch)>,
    warnings: Seq<Warning>,
) -> (Seq<(u64, FatArch)>, Seq<Warning>)
    decreases fat_count(buf) - i,
{
    if i < 0 || i >= fat_count(buf) {
        (out, warnings)
    } else {
        let fa = fat_arch_at(buf, i);
        if arch_in_range(fa, buf.len()) {
            fat_archs_from(buf, i + 1, out.push((i as u64, fa)), warnings)
        } else {
            fat_archs_from(buf, i + 1, out, warnings.push(Warning::FatArchTruncated))
        }
    }
}

/// The usable entries of a fat file, or `None` where the buffer is no fat
/// file or is too short for its directory; and the warnings.
pub open spec fn fat_archs(buf: Seq<u8>, warnings: Seq<Warning>) -> (
    Option<Seq<(u64, FatArch)>>,
    Seq<Warning>,
) {
    if !is_fat(buf) {
        (None, warnings)
    } else if !fat_has_room(buf) {
        (None, warnings.push(Warning::FatNoRoom))
    } else {
        let r = fat_archs_from(buf, 0, Seq::empty(), warnings);
        (Some(r.0), r.1)
    }
}

/// Whether every entry lies within the buffer, and stands in the directory
/// where its number says, below `bound`.
pub open spec fn entries_ok(buf: Seq<u8>, out: Seq<(u64, FatArch)>, bound: int) -> bool {
    forall|k: int|
        0 <= k < out.len() ==> arch_in_range((#[trigger] out[k]).1, buf.len()) && out[k].1
            == fat_arch_at(buf, out[k].0 as int) && out[k].0 < bound
}

/// Every usable entry lies within the buffer, and stands in the directory
/// where its number says.
#[verifier::rlimit(50)]
pub proof fn lemma_fat_archs_from(
    buf: Seq<u8>,
    i: int,
    out: Seq<(u64, FatArch)>,
    warnings: Seq<Warning>,
)
    requires
        0 <= i <= fat_count(buf),
        entries_ok(buf, out, i),
    ensures
        entries_ok(buf, fat_archs_from(buf, i, out, warnings).0, fat_count(buf) as int),
    decreases fat_count(buf) - i,
{
    if i < fat_count(buf) {
        let fa = fat_arch_at(buf, i);
        if arch_in_range(fa, buf.len()) {
            let out2 = out.push((i as u64, fa));
            assert forall|k: int| 0 <= k < out2.len() implies arch_in_range(
                (#[trigger] out2[k]).1,
                buf.len(),
            ) && out2[k].1 == fat_arch_at(buf, out2[k].0 as int) && out2[k].0 < i + 1 by {
                if k < out.len() {
                    assert(out2[k] == out[k]);
                }
            }
            lemma_fat_archs_from(buf, i + 1, out2, warnings);
        } else {
            assert forall|k: int| 0 <= k < out.len() implies arch_in_range(
                (#[trigger] out[k]).1,
                buf.len(),
            ) && out[k].1 == fat_arch_at(buf, out[k].0 as int) && out[k].0 < i + 1 by {}
            lemma_fat_archs_from(buf, i + 1, out, warnings.push(Warning::FatArchTruncated));
        }
    }
}

/// How to choose one image of a fat file.
#[derive(Clone, Debug)]
pub enum SliceChoice {
    /// By the name of its architecture.
    Arch(Vec<u8>),
    /// By its place in the directory.
    Index(u64),
}

pub enum SliceChoiceView {
    Arch(Seq<u8>),
    Index(u64),
}

impl View for SliceChoice {
    type V = SliceChoiceView;

    open spec fn view(&self) -> SliceChoiceView {
        match *self {
            SliceChoice::Arch(n) => SliceChoiceView::Arch(n@),
            SliceChoice::Index(i) => SliceChoiceView::Index(i),
        }
    }
}

/// Whether an entry is what was chosen.
pub open spec fn choice_matches(choice: SliceChoiceView, e: (u64, FatArch)) -> bool {
    match choice {
        SliceChoiceView::Arch(name) => match arch_desc(e.1.cputype, e.1.cpusubtype) {
            Some(d) => bytes_of(d) == name,
            None => false,
        },
        SliceChoiceView::Index(i) => e.0 == i,
    }
}

/// The first entry at or after `k` that is what was chosen.
pub open spec fn chosen_from(entries: Seq<(u64, FatArch)>, choice: SliceChoiceView, k: int) -> Option<
    int,
>
    decreases entries.len() - k,
{
    if k < 0 || k >= entries.len() {
        None
    } else if choice_matches(choice, entries[k]) {
        Some(k)
    } else {
        chosen_from(entries, choice, k + 1)
    }
}

/// What is chosen is the first entry that matches the choice, wherever it
/// stands among the entries.
pub proof fn lemma_chosen_from(entries: Seq<(u64, FatArch)>, choice: SliceChoiceView, k: int)
    requires
        0 <= k,
    ensures
        match chosen_from(entries, choice, k) {
            Some(c) => k <= c < entries.len() && choice_matches(choice, entries[c]) && forall|
                j: int,
            |
                k <= j < c ==> !choice_matches(choice, #[trigger] entries[j]),
            None => forall|j: int|
                k <= j < entries.len() ==> !choice_matches(choice, #[trigger] entries[j]),
        },
    decreases entries.len() - k,
{
    if k < entries.len() && !choice_matches(choice, entries[k]) {
        lemma_chosen_from(entries, choice, k + 1);
    }
}

/// The name under which an image of a fat file goes: that of its
/// architecture, or else its place in the directory.
pub open spec fn slice_name(i: u64, fa: FatArch) -> Seq<u8> {
    match arch_desc(fa.cputype, fa.cpusubtype) {
        Some(d) => bytes_of(d),
        None => decimal_digits(i as nat),
    }
}

/// The views of a list of byte strings.
pub open spec fn strings_views(v: Seq<Vec<u8>>) -> Seq<Seq<u8>> {
    v.map_values(|b: Vec<u8>| b@)
}

/// Says what a buffer holds when it holds a single image.
#[derive(Clone, Copy, Debug)]
pub struct MachOProber;

/// Says what a buffer holds when it holds a fat file.
#[derive(Clone, Copy, Debug)]
pub struct FatMachOProber;

fn bytes_from_str(s: &str) -> (r: Vec<u8>)
    ensures
        r@ == bytes_of(s@),
{
    let mut r: Vec<u8> = Vec::new();
    append_bytes(&mut r, s.as_bytes());
    r
}

impl MachOProber {
    pub fn name(&self) -> (r: &'static str)
        ensures
            r@ == "macho"@,
    {
        "macho"
    }

    /// What the buffer holds, when its header can be read: nothing else is
    /// looked at.
    #[verifier::rlimit(50)]
    pub fn probe(&self, buf: Vec<u8>) -> (r: Vec<ProbeResult>)
        ensures
            match parsed_image(buf@, false, 0, Seq::empty()) {
                Ok((m, _)) => {
                    &&& r@.len() == 1
                    &&& r@[0].desc@ == image_desc(m.mh.cputype, m.mh.cpusubtype, m.mh.filetype)
                    &&& r@[0].arch == m.arch
                    &&& r@[0].likely
                    &&& strings_views(r@[0].cmd@) == seq![bytes_of("macho"@)]
                },
                Err(_) => r@.len() == 0,
            },
    {
        let mut warnings: Vec<Warning> = Vec::new();
        let mut r: Vec<ProbeResult> = Vec::new();
        match MachO::new(buf, false, 0, &mut warnings) {
            Ok(m) => {
                let mut cmd: Vec<Vec<u8>> = Vec::new();
                cmd.push(bytes_from_str("macho"));
                assert(strings_views(cmd@) =~= seq![bytes_of("macho"@)]);
                r.push(ProbeResult { desc: m.desc(), arch: m.eb.arch, likely: true, cmd });
            },
            Err(_) => {},
        }
        r
    }

    /// Reads the image that the buffer holds, with its load commands.
    #[verifier::rlimit(50)]
    pub fn create(&self, buf: Vec<u8>, warnings: &mut Vec<Warning>) -> (r: Result<MachO, MachOError>)
        ensures
            match parsed_image(buf@, true, 0, old(warnings)@) {
                Ok((img, w)) => r is Ok && r->Ok_0@ == img && r->Ok_0.wf() && final(warnings)@
                    == w,
                Err(e) => r == Err::<MachO, MachOError>(e) && final(warnings)@ == old(warnings)@,
            },
    {
        MachO::new(buf, true, 0, warnings)
    }
}

impl FatMachOProber {
    pub fn name(&self) -> (r: &'static str)
        ensures
            r@ == "fat"@,
    {
        "fat"
    }

    /// Reads the directory of a fat file and gives back its usable entries,
    /// each with its place in the directory.
    #[verifier::rlimit(50)]
    pub fn probe_cb(&self, mc: &[u8], warnings: &mut Vec<Warning>) -> (r: Option<Vec<(u64, FatArch)>>)
        ensures
            match fat_archs(mc@, old(warnings)@).0 {
                Some(entries) => r is Some && r->Some_0@ == entries,
                None => r is None,
            },
            final(warnings)@ == fat_archs(mc@, old(warnings)@).1,
            r is Some ==> forall|k: int|
                0 <= k < r->Some_0@.len() ==> arch_in_range((#[trigger] r->Some_0@[k]).1, mc@.len()),
    {
        let buf = mc;
        assert(buf@.len() == buf.len());
        if buf.len() < FAT_HEADER_SIZE {
            return None;
        }
        let magic = read_u32(buf, 0, Endian::BigEndian);
        if magic != FAT_MAGIC {
            return None;
        }
        let nfat = read_u32(buf, 4, Endian::BigEndian);
        if (buf.len() as u64) < FAT_HEADER_SIZE as u64 + nfat as u64 * FAT_ARCH_SIZE as u64 {
            warnings.push(Warning::FatNoRoom);
            return None;
        }
        let ghost target = fat_archs_from(buf@, 0, Seq::empty(), warnings@);
        proof {
            lemma_fat_archs_from(buf@, 0, Seq::empty(), warnings@);
        }
        let mut out: Vec<(u64, FatArch)> = Vec::new();
        let mut i: u32 = 0;
        while i < nfat
            invariant
                i <= nfat,
                nfat == fat_count(buf@),
                buf@.len() == buf.len(),
                buf@.len() >= FAT_HEADER_SIZE + nfat * FAT_ARCH_SIZE,
                fat_archs_from(buf@, i as int, out@, warnings@) == target,
            decreases nfat - i,
        {
            let off: usize = FAT_HEADER_SIZE + i as usize * FAT_ARCH_SIZE;
            let fa = FatArch {
                cputype: read_u32(buf, off, Endian::BigEndian),
                cpusubtype: read_u32(buf, off + 4, Endian::BigEndian),
                offset: read_u32(buf, off + 8, Endian::BigEndian),
                size: read_u32(buf, off + 12, Endian::BigEndian),
                align: read_u32(buf, off + 16, Endian::BigEndian),
            };
            if fa.offset as u64 + fa.size as u64 > buf.len() as u64 {
                warnings.push(Warning::FatArchTruncated);
            } else {
                out.push((i as u64, fa));
            }
            i += 1;
        }
        Some(out)
    }

    /// The name under which an image of a fat file goes.
    pub fn slice_name(&self, i: u64, fa: &FatArch) -> (r: Vec<u8>)
        ensures
            r@ == slice_name(i, *fa),
    {
        match mach_arch_desc(fa.cputype, fa.cpusubtype) {
            Some(d) => bytes_from_str(d),
            None => {
                let mut r: Vec<u8> = Vec::new();
                push_decimal(&mut r, i);
                r
            },
        }
    }

    /// What is said of a fat file for one thing that was found in its
    /// `i`-th image: the description names the image, and the command that
    /// opens the thing starts by choosing the image.
    #[verifier::rlimit(50)]
    pub fn probe(&self, i: u64, fa: &FatArch, pr: &ProbeResult) -> (r: ProbeResult)
        ensures
            r.desc@ == bytes_of("(slice #"@) + decimal_digits(i as nat) + bytes_of(") "@)
                + pr.desc@,
            r.arch == pr.arch,
            r.likely == pr.likely,
            strings_views(r.cmd@) == seq![
                bytes_of("fat"@),
                bytes_of("--arch"@),
                slice_name(i, *fa),
            ] + strings_views(pr.cmd@),
    {
        let mut desc = bytes_from_str("(slice #");
        push_decimal(&mut desc, i);
        append_bytes(&mut desc, ") ".as_bytes());
        append_bytes(&mut desc, pr.desc.as_slice());
        let mut cmd: Vec<Vec<u8>> = Vec::new();
        cmd.push(bytes_from_str("fat"));
        cmd.push(bytes_from_str("--arch"));
        cmd.push(self.slice_name(i, fa));
        let ghost head = strings_views(cmd@);
        assert(head =~= seq![bytes_of("fat"@), bytes_of("--arch"@), slice_name(i, *fa)]);
        let mut k: usize = 0;
        while k < pr.cmd.len()
            invariant
                k <= pr.cmd@.len(),
                strings_views(cmd@) == head + strings_views(pr.cmd@).subrange(0, k as int),
            decreases pr.cmd@.len() - k,
        {
            let copy = copy_range(pr.cmd[k].as_slice(), 0, pr.cmd[k].len());
            assert(copy@ =~= pr.cmd@[k as int]@);
            assert(strings_views(pr.cmd@).subrange(0, k + 1) =~= strings_views(pr.cmd@).subrange(
                0,
                k as int,
            ).push(copy@));
            assert(strings_views(cmd@.push(copy)) =~= strings_views(cmd@).push(copy@));
            cmd.push(copy);
            k += 1;
        }
        assert(strings_views(pr.cmd@).subrange(0, k as int) =~= strings_views(pr.cmd@));
        ProbeResult { desc, arch: pr.arch, likely: pr.likely, cmd }
    }

    /// The image of a fat file that was chosen: the first usable entry that
    /// matches the choice gives the bytes.
    #[verifier::rlimit(50)]
    pub fn create(&self, mc: &[u8], choice: &SliceChoice, warnings: &mut Vec<Warning>) -> (r: Result<
        Vec<u8>,
        MachOError,
    >)
        ensures
            final(warnings)@ == fat_archs(mc@, old(warnings)@).1,
            match fat_archs(mc@, old(warnings)@).0 {
                None => r == Err::<Vec<u8>, MachOError>(MachOError::InvalidFat),
                Some(entries) => match chosen_from(entries, choice@, 0) {
                    None => r == Err::<Vec<u8>, MachOError>(MachOError::NoMatchingArch),
                    Some(c) => r is Ok && r->Ok_0@ == mc@.subrange(
                        entries[c].1.offset as int,
                        entries[c].1.offset + entries[c].1.size,
                    ) && choice_matches(choice@, entries[c]),
                },
            },
    {
        let entries = match self.probe_cb(mc, warnings) {
            Some(e) => e,
            None => {
                return Err(MachOError::InvalidFat);
            },
        };
        proof {
            lemma_chosen_from(entries@, choice@, 0);
        }
        let mut k: usize = 0;
        while k < entries.len()
            invariant
                k <= entries@.len(),
                chosen_from(entries@, choice@, k as int) == chosen_from(entries@, choice@, 0),
                forall|j: int|
                    0 <= j < entries@.len() ==> arch_in_range((#[trigger] entries@[j]).1, mc@.len()),
                Some(entries@) == fat_archs(mc@, old(warnings)@).0,
                warnings@ == fat_archs(mc@, old(warnings)@).1,
            decreases entries@.len() - k,
        {
            let (i, fa) = entries[k];
            let hit = match choice {
                SliceChoice::Arch(name) => match mach_arch_desc(fa.cputype, fa.cpusubtype) {
                    Some(d) => bytes_eq(d.as_bytes(), name.as_slice()),
                    None => false,
                },
                SliceChoice::Index(want) => i == *want,
            };
            if hit {
                assert(arch_in_range(entries@[k as int].1, mc@.len()));
                assert(mc@.len() == mc.len());
                let off = fa.offset as usize;
                let size = fa.size as usize;
                return Ok(copy_range(mc, off, off + size));
            }
            k += 1;
        }
        Err(MachOError::NoMatchingArch)
    }
}

} // verus!
