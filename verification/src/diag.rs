//! Diagnostics: the conditions that are survived with a degraded result.

use vstd::prelude::*;

verus! {

/// One recoverable condition met while reading or rewriting an image.
#[derive(Clone, Copy, Debug, PartialEq, Eq, Structural)]
pub enum Warning {
    /// The buffer ended before the header of a load command.
    LoadCommandsTruncated,
    /// A load command's declared size runs past the buffer.
    LoadCommandTooBig,
    /// A segment command is shorter than its fixed part.
    SegmentCommandTooSmall,
    /// A segment command declares more sections than it holds.
    SectionsTruncated,
    /// `vmaddr + vmsize` passed 64 bits and the size was cut.
    VmOverflow,
    /// `fileoff + filesize` passed 64 bits and the size was cut.
    FileOverflow,
    /// `vmaddr + vmsize` passed 32 bits in a 32-bit image; nothing was changed.
    VmOverflow32,
    /// `fileoff + filesize` passed 32 bits in a 32-bit image; nothing was changed.
    FileOverflow32,
    /// A command is too short to hold the offset and count of a region.
    LinkeditCommandTooSmall,
    /// A region starts past the end of its buffer and was emptied.
    RegionStartsPastEnd,
    /// A region runs past the end of its buffer and was cut.
    RegionTruncated,
    /// A dylib command is shorter than its fixed part.
    DylibCommandTooSmall,
    /// A dylib path is not closed by a NUL.
    DylibNameRunsOff,
    /// A dylib path starts outside its command.
    DylibNameBadOffset,
    /// The symbol table ends before the records asked for.
    SymbolTableTruncated,
    /// A symbol record names a string outside the string table.
    SymbolNameOutOfRange,
    /// A variable-length number is cut short or does not fit 64 bits.
    BadLeb128,
    /// A bind stream names a library ordinal that no library has.
    BindOrdinalOutOfRange,
    /// A bind stream names an unknown special library.
    BindUnknownSpecialOrdinal,
    /// A symbol name in a bind stream is not closed by a NUL.
    BindBadString,
    /// A bind stream sets an unknown relocation type.
    BindUnknownType,
    /// A bind stream names a segment that the image does not have.
    BindBadSegment,
    /// The bind cursor moved past the end of its segment.
    BindOutOfRange,
    /// An unknown bind opcode ended the stream.
    BindUnknownOpcode,
    /// The image has no segment that gives the export addresses a base.
    ExportNoBase,
    /// A node's terminal part is longer than what is left.
    ExportTerminalTooBig,
    /// The flags of an export do not fit 32 bits.
    ExportTooManyFlags,
    /// An export has the unassigned kind 3.
    ExportKindThree,
    /// An export has flag bits that are not known.
    ExportUnknownFlags,
    /// An export is marked both as resolver and as re-export.
    ExportResolverAndReexport,
    /// The name of a re-export is not closed by a NUL.
    ExportBadReexportName,
    /// A node's terminal part holds more than was read.
    ExportExcessTerminalData,
    /// The trie ended before a node's edge count.
    ExportNoEdgeCount,
    /// The label of an edge is not closed by a NUL.
    ExportBadPrefix,
    /// An edge points past the end of the trie.
    ExportBadLimbOffset,
    /// An edge points to a node that was already reached.
    ExportOffsetSeen,
    /// A segment name is longer than 16 bytes and was cut.
    SegmentNameTooLong,
    /// A section name is longer than 16 bytes and was cut.
    SectionNameTooLong,
    /// A section's file size differs from its size in memory.
    SectionSizeMismatch,
    /// The fat header declares more architectures than the buffer holds.
    FatNoRoom,
    /// A fat architecture entry runs past the buffer and was skipped.
    FatArchTruncated,
    /// The string table would pass 32 bits; the string was not added.
    StringTableTooBig,
}

} // verus!
