//! The parsed image and the records it is made of.

use vstd::prelude::*;
use crate::defs::{
    CPU_TYPE_ARM, CPU_TYPE_ARM64, CPU_TYPE_POWERPC, CPU_TYPE_POWERPC64, CPU_TYPE_X86,
    CPU_TYPE_X86_64, DYLIB_MODULE_64_SIZE, DYLIB_MODULE_SIZE, DYLIB_REFERENCE_SIZE,
    DYLIB_TABLE_OF_CONTENTS_SIZE, LC_CODE_SIGNATURE, LC_DATA_IN_CODE, LC_DYLD_INFO,
    LC_DYLIB_CODE_SIGN_DRS, LC_DYSYMTAB, LC_FUNCTION_STARTS, LC_LINKER_OPTIMIZATION_HINT,
    LC_SEGMENT_SPLIT_INFO, LC_SYMTAB, MACH_HEADER_SIZE, MH_CIGAM, MH_CIGAM_64, MH_MAGIC,
    MH_MAGIC_64, NLIST_64_SIZE, NLIST_SIZE, RELOCATION_INFO_SIZE,
};
use crate::exec::{Arch, ErrorKind, ExecBase, SegmentView, segment_views};
use crate::util::{Endian, get_u32, read_u32, u32_bytes, write_u32};
use crate::util::{lemma_u32_bytes_round_trip, lemma_u32_round_trip};

verus! {

/// The fixed header of an image. A 64-bit image has four reserved bytes more,
/// which are not kept.
#[derive(Clone, Copy, Debug, PartialEq, Eq, Structural)]
pub struct MachHeader {
    pub magic: u32,
    pub cputype: u32,
    pub cpusubtype: u32,
    pub filetype: u32,
    pub ncmds: u32,
    pub sizeofcmds: u32,
    pub flags: u32,
}

impl MachHeader {
    /// The header that 28 bytes hold.
    pub open spec fn decoded(b: Seq<u8>, end: Endian) -> MachHeader
        recommends
            b.len() == MACH_HEADER_SIZE,
    {
        MachHeader {
            magic: get_u32(b, 0, end),
            cputype: get_u32(b, 4, end),
            cpusubtype: get_u32(b, 8, end),
            filetype: get_u32(b, 12, end),
            ncmds: get_u32(b, 16, end),
            sizeofcmds: get_u32(b, 20, end),
            flags: get_u32(b, 24, end),
        }
    }

    /// The 28 bytes of a header.
    pub open spec fn encoded(self, end: Endian) -> Seq<u8> {
        u32_bytes(self.magic, end) + u32_bytes(self.cputype, end) + u32_bytes(
            self.cpusubtype,
            end,
        ) + u32_bytes(self.filetype, end) + u32_bytes(self.ncmds, end) + u32_bytes(
            self.sizeofcmds,
            end,
        ) + u32_bytes(self.flags, end)
    }

    pub fn decode(buf: &[u8], end: Endian) -> (r: MachHeader)
        requires
            buf@.len() == MACH_HEADER_SIZE,
        ensures
            r == MachHeader::decoded(buf@, end),
    {
        MachHeader {
            magic: read_u32(buf, 0, end),
            cputype: read_u32(buf, 4, end),
            cpusubtype: read_u32(buf, 8, end),
            filetype: read_u32(buf, 12, end),
            ncmds: read_u32(buf, 16, end),
            sizeofcmds: read_u32(buf, 20, end),
            flags: read_u32(buf, 24, end),
        }
    }

    /// Appends the 28 bytes of the header.
    pub fn encode(&self, out: &mut Vec<u8>, end: Endian)
        ensures
            final(out)@ == old(out)@ + self.encoded(end),
    {
        write_u32(out, self.magic, end);
        write_u32(out, self.cputype, end);
        write_u32(out, self.cpusubtype, end);
        write_u32(out, self.filetype, end);
        write_u32(out, self.ncmds, end);
        write_u32(out, self.sizeofcmds, end);
        write_u32(out, self.flags, end);
        assert(out@ =~= old(out)@ + self.encoded(end));
    }

    /// A header that is decoded and encoded again, in either byte order, is
    /// the same 28 bytes.
    #[verifier::rlimit(50)]
    pub proof fn lemma_bytes_round_trip(b: Seq<u8>, end: Endian)
        requires
            b.len() == MACH_HEADER_SIZE,
        ensures
            MachHeader::decoded(b, end).encoded(end) == b,
    {
        lemma_u32_bytes_round_trip(b.subrange(0, 4), end);
        lemma_u32_bytes_round_trip(b.subrange(4, 8), end);
        lemma_u32_bytes_round_trip(b.subrange(8, 12), end);
        lemma_u32_bytes_round_trip(b.subrange(12, 16), end);
        lemma_u32_bytes_round_trip(b.subrange(16, 20), end);
        lemma_u32_bytes_round_trip(b.subrange(20, 24), end);
        lemma_u32_bytes_round_trip(b.subrange(24, 28), end);
        assert(MachHeader::decoded(b, end).encoded(end) =~= b);
    }

    /// A header that is encoded and decoded again is the same header.
    #[verifier::rlimit(50)]
    pub proof fn lemma_round_trip(self, end: Endian)
        ensures
            self.encoded(end).len() == MACH_HEADER_SIZE,
            MachHeader::decoded(self.encoded(end), end) == self,
    {
        lemma_u32_round_trip(self.magic, end);
        lemma_u32_round_trip(self.cputype, end);
        lemma_u32_round_trip(self.cpusubtype, end);
        lemma_u32_round_trip(self.filetype, end);
        lemma_u32_round_trip(self.ncmds, end);
        lemma_u32_round_trip(self.sizeofcmds, end);
        lemma_u32_round_trip(self.flags, end);
        let e = self.encoded(end);
        assert(e.subrange(0, 4) =~= u32_bytes(self.magic, end));
        assert(e.subrange(4, 8) =~= u32_bytes(self.cputype, end));
        assert(e.subrange(8, 12) =~= u32_bytes(self.cpusubtype, end));
        assert(e.subrange(12, 16) =~= u32_bytes(self.filetype, end));
        assert(e.subrange(16, 20) =~= u32_bytes(self.ncmds, end));
        assert(e.subrange(20, 24) =~= u32_bytes(self.sizeofcmds, end));
        assert(e.subrange(24, 28) =~= u32_bytes(self.flags, end));
    }
}

impl crate::util::FromBytes for MachHeader {
    open spec fn byte_size() -> nat {
        MACH_HEADER_SIZE as nat
    }

    open spec fn of_bytes(b: Seq<u8>, end: Endian) -> MachHeader {
        MachHeader::decoded(b, end)
    }

    fn from_bytes(slice: &[u8], end: Endian) -> MachHeader {
        MachHeader::decode(slice, end)
    }
}

/// The byte order and width that a magic number stands for: whether the
/// image is 64-bit comes second.
pub open spec fn magic_kind(magic: u32) -> Option<(Endian, bool)> {
    if magic == MH_MAGIC {
        Some((Endian::BigEndian, false))
    } else if magic == MH_MAGIC_64 {
        Some((Endian::BigEndian, true))
    } else if magic == MH_CIGAM {
        Some((Endian::LittleEndian, false))
    } else if magic == MH_CIGAM_64 {
        Some((Endian::LittleEndian, true))
    } else {
        None
    }
}

/// The architecture that a CPU type stands for.
pub open spec fn arch_of_cputype(cputype: u32) -> Arch {
    if cputype == CPU_TYPE_X86 {
        Arch::X86
    } else if cputype == CPU_TYPE_X86_64 {
        Arch::X86_64
    } else if cputype == CPU_TYPE_ARM {
        Arch::ARM
    } else if cputype == CPU_TYPE_ARM64 {
        Arch::AArch64
    } else if cputype == CPU_TYPE_POWERPC || cputype == CPU_TYPE_POWERPC64 {
        Arch::PowerPC
    } else {
        Arch::UnknownArch
    }
}

#[derive(Clone, Copy, Debug, PartialEq, Eq, Structural)]
pub enum LoadDylibKind {
    Normal,
    Weak,
    Reexport,
    Upward,
}

/// A version of three parts, packed as 16, 8 and 8 bits.
#[derive(Clone, Copy, Debug, PartialEq, Eq, Structural)]
pub struct PackedVersion(pub u32);

/// A library that a load command asks for.
#[derive(Clone, Debug)]
pub struct LoadDylib {
    pub path: Vec<u8>,
    pub kind: LoadDylibKind,
    pub timestamp: u32,
    pub current_version: PackedVersion,
    pub compatibility_version: PackedVersion,
}

pub struct LoadDylibView {
    pub path: Seq<u8>,
    pub kind: LoadDylibKind,
    pub timestamp: u32,
    pub current_version: PackedVersion,
    pub compatibility_version: PackedVersion,
}

impl View for LoadDylib {
    type V = LoadDylibView;

    open spec fn view(&self) -> LoadDylibView {
        LoadDylibView {
            path: self.path@,
            kind: self.kind,
            timestamp: self.timestamp,
            current_version: self.current_version,
            compatibility_version: self.compatibility_version,
        }
    }
}

/// The views of a list of libraries.
pub open spec fn load_dylib_views(v: Seq<LoadDylib>) -> Seq<LoadDylibView> {
    v.map_values(|d: LoadDylib| d@)
}

/// The views of a list of byte strings.
pub open spec fn bytes_views(v: Seq<Vec<u8>>) -> Seq<Seq<u8>> {
    v.map_values(|b: Vec<u8>| b@)
}

/// The symbols that a shared cache keeps for an image: a symbol table, its
/// string table, and the run of records that belongs to the image.
#[derive(Clone, Debug)]
pub struct DscTabs {
    pub symtab: Vec<u8>,
    pub strtab: Vec<u8>,
    pub start: u32,
    pub count: u32,
}

pub struct DscTabsView {
    pub symtab: Seq<u8>,
    pub strtab: Seq<u8>,
    pub start: u32,
    pub count: u32,
}

impl View for DscTabs {
    type V = DscTabsView;

    open spec fn view(&self) -> DscTabsView {
        DscTabsView {
            symtab: self.symtab@,
            strtab: self.strtab@,
            start: self.start,
            count: self.count,
        }
    }
}

/// What went wrong when nothing usable could be given back.
#[derive(Clone, Copy, Debug, PartialEq, Eq, Structural)]
pub enum MachOError {
    /// The buffer is too short for the header.
    Truncated,
    /// The magic number is none of the four.
    BadMagic,
    /// No segment starts at the header.
    NoTextSegment,
    /// Link-edit data exists but no segment to hold it.
    NewSegmentsUnsupported,
    /// The space for load commands ends past the header's segment.
    CommandsPastText,
    /// The space for load commands is shorter than the header.
    SizeofcmdsTooSmall,
    /// The new load commands do not fit in their space.
    NeedSlide,
    /// A thread-local symbol cannot be written as a symbol record.
    ThreadLocalSymbol,
    /// A resolver with a stub cannot be written as a symbol record.
    ResolverWithStub,
    /// An address does not fit the 32-bit symbol record.
    AddressOverflow,
    /// The buffer does not hold a fat header.
    InvalidFat,
    /// No architecture of a fat file matched the request.
    NoMatchingArch,
}

impl MachOError {
    pub open spec fn spec_kind(self) -> ErrorKind {
        match self {
            MachOError::Truncated => ErrorKind::BadData,
            MachOError::BadMagic => ErrorKind::BadData,
            MachOError::NoTextSegment => ErrorKind::BadData,
            MachOError::NewSegmentsUnsupported => ErrorKind::Other,
            MachOError::CommandsPastText => ErrorKind::BadData,
            MachOError::SizeofcmdsTooSmall => ErrorKind::BadData,
            MachOError::NeedSlide => ErrorKind::Other,
            MachOError::ThreadLocalSymbol => ErrorKind::Other,
            MachOError::ResolverWithStub => ErrorKind::Other,
            MachOError::AddressOverflow => ErrorKind::Other,
            MachOError::InvalidFat => ErrorKind::BadData,
            MachOError::NoMatchingArch => ErrorKind::Other,
        }
    }

    #[verifier::when_used_as_spec(spec_kind)]
    pub fn kind(self) -> (r: ErrorKind)
        ensures
            r == self.spec_kind(),
    {
        match self {
            MachOError::Truncated => ErrorKind::BadData,
            MachOError::BadMagic => ErrorKind::BadData,
            MachOError::NoTextSegment => ErrorKind::BadData,
            MachOError::NewSegmentsUnsupported => ErrorKind::Other,
            MachOError::CommandsPastText => ErrorKind::BadData,
            MachOError::SizeofcmdsTooSmall => ErrorKind::BadData,
            MachOError::NeedSlide => ErrorKind::Other,
            MachOError::ThreadLocalSymbol => ErrorKind::Other,
            MachOError::ResolverWithStub => ErrorKind::Other,
            MachOError::AddressOverflow => ErrorKind::Other,
            MachOError::InvalidFat => ErrorKind::BadData,
            MachOError::NoMatchingArch => ErrorKind::Other,
        }
    }

    /// A short description of the error.
    pub fn message(self) -> (r: &'static str)
        ensures
            r@ == (match self {
                MachOError::Truncated => "truncated"@,
                MachOError::BadMagic => "bad magic"@,
                MachOError::NoTextSegment => "no text segment?"@,
                MachOError::NewSegmentsUnsupported =>
                    "allocating new segments in VM space not supported yet"@,
                MachOError::CommandsPastText => "load commands go past __TEXT"@,
                MachOError::SizeofcmdsTooSmall => "sizeofcmds too small"@,
                MachOError::NeedSlide => "need to slide in this case; not supported yet"@,
                MachOError::ThreadLocalSymbol => "can't handle thread local"@,
                MachOError::ResolverWithStub => "can't handle resolver with stub"@,
                MachOError::AddressOverflow => "address does not fit in 32 bits"@,
                MachOError::InvalidFat => "invalid fat mach-o"@,
                MachOError::NoMatchingArch => "no fat arch matched the arguments specified"@,
            }),
    {
        match self {
            MachOError::Truncated => "truncated",
            MachOError::BadMagic => "bad magic",
            MachOError::NoTextSegment => "no text segment?",
            MachOError::NewSegmentsUnsupported =>
                "allocating new segments in VM space not supported yet",
            MachOError::CommandsPastText => "load commands go past __TEXT",
            MachOError::SizeofcmdsTooSmall => "sizeofcmds too small",
            MachOError::NeedSlide => "need to slide in this case; not supported yet",
            MachOError::ThreadLocalSymbol => "can't handle thread local",
            MachOError::ResolverWithStub => "can't handle resolver with stub",
            MachOError::AddressOverflow => "address does not fit in 32 bits",
            MachOError::InvalidFat => "invalid fat mach-o",
            MachOError::NoMatchingArch => "no fat arch matched the arguments specified",
        }
    }
}

/// How one link-edit region is found in its load command.
#[derive(Clone, Copy, Debug, PartialEq, Eq, Structural)]
pub struct LinkeditBit {
    /// The kind of load command that describes the region.
    pub cmd_id: u32,
    /// Where in that command the region's offset stands.
    pub cmd_off_field_off: usize,
    /// Where in that command the region's element count stands.
    pub cmd_count_field_off: usize,
    /// The size of one element.
    pub elm_size: usize,
    /// Whether the offset counts records of the symbol table, not bytes of
    /// the file.
    pub is_symtab: bool,
}

/// The number of link-edit regions.
pub const NUM_LINKEDIT: usize = 22;

/// The places of the regions in an image's list.
pub const DYLD_REBASE: usize = 0;

pub const DYLD_BIND: usize = 1;

pub const DYLD_WEAK_BIND: usize = 2;

pub const DYLD_LAZY_BIND: usize = 3;

pub const DYLD_EXPORT: usize = 4;

pub const LOCREL: usize = 5;

pub const SEGMENT_SPLIT_INFO: usize = 6;

pub const FUNCTION_STARTS: usize = 7;

pub const DATA_IN_CODE: usize = 8;

pub const LINKER_OPTIMIZATION_HINT: usize = 9;

pub const DYLIB_CODE_SIGN_DRS: usize = 10;

pub const SYMTAB: usize = 11;

pub const EXTREL: usize = 12;

pub const INDIRECTSYM: usize = 13;

pub const STRTAB: usize = 14;

pub const MODTAB: usize = 15;

pub const TOC: usize = 16;

pub const EXTREFSYM: usize = 17;

pub const CODE_SIGNATURE: usize = 18;

pub const LOCALSYM: usize = 19;

pub const EXTDEFSYM: usize = 20;

pub const UNDEFSYM: usize = 21;

/// The size of one symbol record.
pub open spec fn nlist_size_of(is64: bool) -> usize {
    if is64 {
        NLIST_64_SIZE
    } else {
        NLIST_SIZE
    }
}

pub open spec fn bit(
    cmd_id: u32,
    off_field: usize,
    count_field: usize,
    elm_size: usize,
    is_symtab: bool,
) -> LinkeditBit {
    LinkeditBit {
        cmd_id,
        cmd_off_field_off: off_field,
        cmd_count_field_off: count_field,
        elm_size,
        is_symtab,
    }
}

/// The registry of link-edit regions, in the order in which they are laid
/// out when an image is rewritten.
pub open spec fn linkedit_bits(is64: bool) -> Seq<LinkeditBit> {
    seq![
        bit(LC_DYLD_INFO, 8, 12, 1, false),
        bit(LC_DYLD_INFO, 16, 20, 1, false),
        bit(LC_DYLD_INFO, 24, 28, 1, false),
        bit(LC_DYLD_INFO, 32, 36, 1, false),
        bit(LC_DYLD_INFO, 40, 44, 1, false),
        bit(LC_DYSYMTAB, 72, 76, RELOCATION_INFO_SIZE, false),
        bit(LC_SEGMENT_SPLIT_INFO, 8, 12, 1, false),
        bit(LC_FUNCTION_STARTS, 8, 12, 1, false),
        bit(LC_DATA_IN_CODE, 8, 12, 1, false),
        bit(LC_LINKER_OPTIMIZATION_HINT, 8, 12, 1, false),
        bit(LC_DYLIB_CODE_SIGN_DRS, 8, 12, 1, false),
        bit(LC_SYMTAB, 8, 12, nlist_size_of(is64), false),
        bit(LC_DYSYMTAB, 64, 68, RELOCATION_INFO_SIZE, false),
        bit(LC_DYSYMTAB, 56, 60, 4, false),
        bit(LC_SYMTAB, 16, 20, 1, false),
        bit(
            LC_DYSYMTAB,
            40,
            44,
            if is64 {
                DYLIB_MODULE_64_SIZE
            } else {
                DYLIB_MODULE_SIZE
            },
            false,
        ),
        bit(LC_DYSYMTAB, 32, 36, DYLIB_TABLE_OF_CONTENTS_SIZE, false),
        bit(LC_DYSYMTAB, 48, 52, DYLIB_REFERENCE_SIZE, false),
        bit(LC_CODE_SIGNATURE, 8, 12, 1, false),
        bit(LC_DYSYMTAB, 8, 12, nlist_size_of(is64), true),
        bit(LC_DYSYMTAB, 16, 20, nlist_size_of(is64), true),
        bit(LC_DYSYMTAB, 24, 28, nlist_size_of(is64), true),
    ]
}

fn lbit(cmd_id: u32, off_field: usize, count_field: usize, elm_size: usize, is_symtab: bool) -> (r:
    LinkeditBit)
    ensures
        r == bit(cmd_id, off_field, count_field, elm_size, is_symtab),
{
    LinkeditBit {
        cmd_id,
        cmd_off_field_off: off_field,
        cmd_count_field_off: count_field,
        elm_size,
        is_symtab,
    }
}

/// Every entry of the registry has a positive element size and two fields
/// that lie within 80 bytes.
pub proof fn lemma_linkedit_bits(is64: bool)
    ensures
        linkedit_bits(is64).len() == NUM_LINKEDIT,
        forall|i: int|
            0 <= i < NUM_LINKEDIT ==> {
                let b = #[trigger] linkedit_bits(is64)[i];
                &&& 0 < b.elm_size <= 56
                &&& b.cmd_off_field_off + 4 <= 80
                &&& b.cmd_count_field_off + 4 <= 80
                &&& b.is_symtab == (i >= LOCALSYM)
                &&& b.is_symtab ==> b.elm_size == nlist_size_of(is64)
            },
{
}

#[verifier::rlimit(50)]
pub fn make_linkedit_bits(is64: bool) -> (r: Vec<LinkeditBit>)
    ensures
        r@ == linkedit_bits(is64),
{
    let nlist_size: usize = if is64 {
        NLIST_64_SIZE
    } else {
        NLIST_SIZE
    };
    let module_size: usize = if is64 {
        DYLIB_MODULE_64_SIZE
    } else {
        DYLIB_MODULE_SIZE
    };
    let mut r: Vec<LinkeditBit> = Vec::new();
    r.push(lbit(LC_DYLD_INFO, 8, 12, 1, false));
    r.push(lbit(LC_DYLD_INFO, 16, 20, 1, false));
    r.push(lbit(LC_DYLD_INFO, 24, 28, 1, false));
    r.push(lbit(LC_DYLD_INFO, 32, 36, 1, false));
    r.push(lbit(LC_DYLD_INFO, 40, 44, 1, false));
    r.push(lbit(LC_DYSYMTAB, 72, 76, RELOCATION_INFO_SIZE, false));
    r.push(lbit(LC_SEGMENT_SPLIT_INFO, 8, 12, 1, false));
    r.push(lbit(LC_FUNCTION_STARTS, 8, 12, 1, false));
    r.push(lbit(LC_DATA_IN_CODE, 8, 12, 1, false));
    r.push(lbit(LC_LINKER_OPTIMIZATION_HINT, 8, 12, 1, false));
    r.push(lbit(LC_DYLIB_CODE_SIGN_DRS, 8, 12, 1, false));
    r.push(lbit(LC_SYMTAB, 8, 12, nlist_size, false));
    r.push(lbit(LC_DYSYMTAB, 64, 68, RELOCATION_INFO_SIZE, false));
    r.push(lbit(LC_DYSYMTAB, 56, 60, 4, false));
    r.push(lbit(LC_SYMTAB, 16, 20, 1, false));
    r.push(lbit(LC_DYSYMTAB, 40, 44, module_size, false));
    r.push(lbit(LC_DYSYMTAB, 32, 36, DYLIB_TABLE_OF_CONTENTS_SIZE, false));
    r.push(lbit(LC_DYSYMTAB, 48, 52, DYLIB_REFERENCE_SIZE, false));
    r.push(lbit(LC_CODE_SIGNATURE, 8, 12, 1, false));
    r.push(lbit(LC_DYSYMTAB, 8, 12, nlist_size, true));
    r.push(lbit(LC_DYSYMTAB, 16, 20, nlist_size, true));
    r.push(lbit(LC_DYSYMTAB, 24, 28, nlist_size, true));
    assert(r@ =~= linkedit_bits(is64));
    r
}

/// A parsed image.
#[derive(Clone, Debug)]
pub struct MachO {
    pub eb: ExecBase,
    pub is64: bool,
    pub mh: MachHeader,
    /// Where in the whole buffer the header stands: not 0 for an image inside
    /// a larger container.
    pub hdr_offset: usize,
    /// The load commands, each with its 8-byte header.
    pub load_commands: Vec<Vec<u8>>,
    pub load_dylib: Vec<LoadDylib>,
    /// The address that bind and export addresses are relative to.
    pub dyld_base: Option<u64>,
    /// The link-edit regions, in the order of the registry.
    pub linkedit: Vec<Vec<u8>>,
    pub dsc_tabs: Option<DscTabs>,
}

pub struct MachOView {
    pub arch: Arch,
    pub endian: Endian,
    pub segments: Seq<SegmentView>,
    pub sections: Seq<SegmentView>,
    pub whole_buf: Option<Seq<u8>>,
    pub is64: bool,
    pub mh: MachHeader,
    pub hdr_offset: usize,
    pub load_commands: Seq<Seq<u8>>,
    pub load_dylib: Seq<LoadDylibView>,
    pub dyld_base: Option<u64>,
    pub linkedit: Seq<Seq<u8>>,
    pub dsc_tabs: Option<DscTabsView>,
}

impl View for MachO {
    type V = MachOView;

    open spec fn view(&self) -> MachOView {
        MachOView {
            arch: self.eb.arch,
            endian: self.eb.endian,
            segments: segment_views(self.eb.segments@),
            sections: segment_views(self.eb.sections@),
            whole_buf: crate::exec::opt_bytes(self.eb.whole_buf),
            is64: self.is64,
            mh: self.mh,
            hdr_offset: self.hdr_offset,
            load_commands: bytes_views(self.load_commands@),
            load_dylib: load_dylib_views(self.load_dylib@),
            dyld_base: self.dyld_base,
            linkedit: bytes_views(self.linkedit@),
            dsc_tabs: match self.dsc_tabs {
                Some(t) => Some(t@),
                None => None,
            },
        }
    }
}

impl MachO {
    /// An image has one region for each entry of the registry.
    pub open spec fn wf(&self) -> bool {
        self.linkedit@.len() == NUM_LINKEDIT
    }

    /// The size of one symbol record of this image.
    pub fn nlist_size(&self) -> (r: usize)
        ensures
            r == nlist_size_of(self.is64),
    {
        if self.is64 {
            NLIST_64_SIZE
        } else {
            NLIST_SIZE
        }
    }

    pub fn page_size(&self) -> (r: u64)
        ensures
            r == 0x1000,
    {
        0x1000
    }

    /// One of the link-edit regions, by its place in the registry.
    pub fn region(&self, which: usize) -> (r: &[u8])
        requires
            self.wf(),
            which < NUM_LINKEDIT,
        ensures
            r@ == self@.linkedit[which as int],
    {
        self.linkedit[which].as_slice()
    }
}

} // verus!
