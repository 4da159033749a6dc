//! Constants of the Mach-O file format: magic numbers, load-command kinds,
//! record sizes, symbol-record flags, bind opcodes and export flags.

use vstd::prelude::*;

verus! {

pub const MH_MAGIC: u32 = 0xfeedface;

pub const MH_MAGIC_64: u32 = 0xfeedfacf;

pub const MH_CIGAM: u32 = 0xcefaedfe;

pub const MH_CIGAM_64: u32 = 0xcffaedfe;

pub const FAT_MAGIC: u32 = 0xcafebabe;

pub const MH_OBJECT: u32 = 0x1;

pub const MH_EXECUTE: u32 = 0x2;

pub const MH_CORE: u32 = 0x4;

pub const MH_DYLIB: u32 = 0x6;

pub const MH_DYLINKER: u32 = 0x7;

pub const MH_BUNDLE: u32 = 0x8;

pub const MH_DSYM: u32 = 0xa;

pub const MH_KEXT_BUNDLE: u32 = 0xb;

pub const LC_SEGMENT: u32 = 0x1;

pub const LC_SYMTAB: u32 = 0x2;

pub const LC_DYSYMTAB: u32 = 0xb;

pub const LC_LOAD_DYLIB: u32 = 0xc;

pub const LC_LOAD_WEAK_DYLIB: u32 = 0x8000_0018;

pub const LC_SEGMENT_64: u32 = 0x19;

pub const LC_CODE_SIGNATURE: u32 = 0x1d;

pub const LC_SEGMENT_SPLIT_INFO: u32 = 0x1e;

pub const LC_REEXPORT_DYLIB: u32 = 0x8000_001f;

pub const LC_DYLD_INFO: u32 = 0x22;

pub const LC_DYLD_INFO_ONLY: u32 = 0x8000_0022;

pub const LC_LOAD_UPWARD_DYLIB: u32 = 0x8000_0023;

pub const LC_FUNCTION_STARTS: u32 = 0x26;

pub const LC_DATA_IN_CODE: u32 = 0x29;

pub const LC_DYLIB_CODE_SIGN_DRS: u32 = 0x2b;

pub const LC_LINKER_OPTIMIZATION_HINT: u32 = 0x2e;

/// Sizes in bytes of the fixed records.
pub const MACH_HEADER_SIZE: usize = 28;

pub const MACH_HEADER_64_SIZE: usize = 32;

pub const LOAD_COMMAND_SIZE: usize = 8;

pub const SEGMENT_COMMAND_SIZE: usize = 56;

pub const SEGMENT_COMMAND_64_SIZE: usize = 72;

pub const SECTION_SIZE: usize = 68;

pub const SECTION_64_SIZE: usize = 80;

pub const SYMTAB_COMMAND_SIZE: usize = 24;

pub const DYSYMTAB_COMMAND_SIZE: usize = 80;

pub const DYLD_INFO_COMMAND_SIZE: usize = 48;

pub const LINKEDIT_DATA_COMMAND_SIZE: usize = 16;

pub const DYLIB_COMMAND_SIZE: usize = 24;

pub const NLIST_SIZE: usize = 12;

pub const NLIST_64_SIZE: usize = 16;

pub const RELOCATION_INFO_SIZE: usize = 8;

pub const DYLIB_MODULE_SIZE: usize = 52;

pub const DYLIB_MODULE_64_SIZE: usize = 56;

pub const DYLIB_TABLE_OF_CONTENTS_SIZE: usize = 8;

pub const DYLIB_REFERENCE_SIZE: usize = 4;

pub const FAT_HEADER_SIZE: usize = 8;

pub const FAT_ARCH_SIZE: usize = 20;

pub const VM_PROT_READ: u32 = 0x1;

pub const VM_PROT_WRITE: u32 = 0x2;

pub const VM_PROT_EXECUTE: u32 = 0x4;

/// Bits of a symbol record's type byte.
pub const N_STAB: u32 = 0xe0;

pub const N_PEXT: u32 = 0x10;

pub const N_TYPE: u32 = 0x0e;

pub const N_EXT: u32 = 0x01;

pub const N_UNDF: u32 = 0x0;

pub const N_ABS: u32 = 0x2;

pub const N_INDR: u32 = 0xa;

/// Bits of a symbol record's descriptor.
pub const N_ARM_THUMB_DEF: u32 = 0x0008;

pub const N_WEAK_REF: u32 = 0x0040;

pub const N_WEAK_DEF: u32 = 0x0080;

pub const N_REF_TO_WEAK: u32 = 0x0080;

pub const N_SYMBOL_RESOLVER: u32 = 0x0100;

pub const SELF_LIBRARY_ORDINAL: u32 = 0x0;

pub const DYNAMIC_LOOKUP_ORDINAL: u32 = 0xfe;

pub const EXECUTABLE_ORDINAL: u32 = 0xff;

pub const BIND_TYPE_POINTER: u32 = 1;

pub const BIND_OPCODE_MASK: u32 = 0xf0;

pub const BIND_IMMEDIATE_MASK: u32 = 0x0f;

pub const BIND_OPCODE_DONE: u32 = 0x00;

pub const BIND_OPCODE_SET_DYLIB_ORDINAL_IMM: u32 = 0x10;

pub const BIND_OPCODE_SET_DYLIB_ORDINAL_ULEB: u32 = 0x20;

pub const BIND_OPCODE_SET_DYLIB_SPECIAL_IMM: u32 = 0x30;

pub const BIND_OPCODE_SET_SYMBOL_TRAILING_FLAGS_IMM: u32 = 0x40;

pub const BIND_OPCODE_SET_TYPE_IMM: u32 = 0x50;

pub const BIND_OPCODE_SET_ADDEND_SLEB: u32 = 0x60;

pub const BIND_OPCODE_SET_SEGMENT_AND_OFFSET_ULEB: u32 = 0x70;

pub const BIND_OPCODE_ADD_ADDR_ULEB: u32 = 0x80;

pub const BIND_OPCODE_DO_BIND: u32 = 0x90;

pub const BIND_OPCODE_DO_BIND_ADD_ADDR_ULEB: u32 = 0xa0;

pub const BIND_OPCODE_DO_BIND_ADD_ADDR_IMM_SCALED: u32 = 0xb0;

pub const BIND_OPCODE_DO_BIND_ULEB_TIMES_SKIPPING_ULEB: u32 = 0xc0;

pub const EXPORT_SYMBOL_FLAGS_KIND_MASK: u32 = 0x03;

pub const EXPORT_SYMBOL_FLAGS_KIND_REGULAR: u32 = 0x00;

pub const EXPORT_SYMBOL_FLAGS_KIND_THREAD_LOCAL: u32 = 0x01;

pub const EXPORT_SYMBOL_FLAGS_KIND_ABSOLUTE: u32 = 2;

pub const EXPORT_SYMBOL_FLAGS_WEAK_DEFINITION: u32 = 0x04;

pub const EXPORT_SYMBOL_FLAGS_REEXPORT: u32 = 0x08;

pub const EXPORT_SYMBOL_FLAGS_STUB_AND_RESOLVER: u32 = 0x10;

pub const CPU_ARCH_ABI64: u32 = 0x0100_0000;

pub const CPU_TYPE_MC680X0: u32 = 6;

pub const CPU_TYPE_X86: u32 = 7;

pub const CPU_TYPE_I386: u32 = 7;

pub const CPU_TYPE_X86_64: u32 = 0x0100_0007;

pub const CPU_TYPE_HPPA: u32 = 11;

pub const CPU_TYPE_ARM: u32 = 12;

pub const CPU_TYPE_ARM64: u32 = 0x0100_000c;

pub const CPU_TYPE_MC88000: u32 = 13;

pub const CPU_TYPE_SPARC: u32 = 14;

pub const CPU_TYPE_I860: u32 = 15;

pub const CPU_TYPE_POWERPC: u32 = 18;

pub const CPU_TYPE_POWERPC64: u32 = 0x0100_0012;

pub const X_CPU_TYPE_ANY: u32 = 0xffffffff;

pub const X_CPU_SUBTYPE_MULTIPLE: u32 = 0xffffffff;

pub const CPU_SUBTYPE_LITTLE_ENDIAN: u32 = 0;

pub const CPU_SUBTYPE_BIG_ENDIAN: u32 = 1;

pub const CPU_SUBTYPE_MASK: u32 = 0x8000_0000;

pub const CPU_SUBTYPE_HPPA_ALL: u32 = 0;

pub const CPU_SUBTYPE_HPPA_7100LC: u32 = 1;

pub const CPU_SUBTYPE_I386_ALL: u32 = 3;

pub const CPU_SUBTYPE_X86_64_ALL: u32 = 3;

pub const CPU_SUBTYPE_486: u32 = 4;

pub const CPU_SUBTYPE_486SX: u32 = 132;

pub const CPU_SUBTYPE_PENT: u32 = 5;

pub const CPU_SUBTYPE_PENTPRO: u32 = 22;

pub const CPU_SUBTYPE_PENTII_M3: u32 = 54;

pub const CPU_SUBTYPE_PENTII_M5: u32 = 86;

pub const CPU_SUBTYPE_PENTIUM_4: u32 = 10;

pub const CPU_SUBTYPE_I860_ALL: u32 = 0;

pub const CPU_SUBTYPE_MC680X0_ALL: u32 = 1;

pub const CPU_SUBTYPE_MC68040: u32 = 2;

pub const CPU_SUBTYPE_MC68030_ONLY: u32 = 3;

pub const CPU_SUBTYPE_MC88000_ALL: u32 = 0;

pub const CPU_SUBTYPE_POWERPC_ALL: u32 = 0;

pub const CPU_SUBTYPE_POWERPC_601: u32 = 1;

pub const CPU_SUBTYPE_POWERPC_603: u32 = 3;

pub const CPU_SUBTYPE_POWERPC_603E: u32 = 4;

pub const CPU_SUBTYPE_POWERPC_603EV: u32 = 5;

pub const CPU_SUBTYPE_POWERPC_604: u32 = 6;

pub const CPU_SUBTYPE_POWERPC_604E: u32 = 7;

pub const CPU_SUBTYPE_POWERPC_750: u32 = 9;

pub const CPU_SUBTYPE_POWERPC_7400: u32 = 10;

pub const CPU_SUBTYPE_POWERPC_7450: u32 = 11;

pub const CPU_SUBTYPE_POWERPC_970: u32 = 100;

pub const CPU_SUBTYPE_SPARC_ALL: u32 = 0;

pub const CPU_SUBTYPE_ARM_ALL: u32 = 0;

pub const CPU_SUBTYPE_ARM_V4T: u32 = 5;

pub const CPU_SUBTYPE_ARM_V6: u32 = 6;

pub const CPU_SUBTYPE_ARM_V5TEJ: u32 = 7;

pub const CPU_SUBTYPE_ARM_XSCALE: u32 = 8;

pub const CPU_SUBTYPE_ARM_V7: u32 = 9;

pub const CPU_SUBTYPE_ARM_V7F: u32 = 10;

pub const CPU_SUBTYPE_ARM_V7S: u32 = 11;

pub const CPU_SUBTYPE_ARM_V7K: u32 = 12;

pub const CPU_SUBTYPE_ARM64_ALL: u32 = 0;

pub const CPU_SUBTYPE_ARM64_V8: u32 = 1;

} // verus!
