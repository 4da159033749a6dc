//! Descriptions in words: of architectures, of an image, and of the
//! libraries it asks for.

use vstd::prelude::*;
use crate::defs::{
    CPU_SUBTYPE_486, CPU_SUBTYPE_486SX, CPU_SUBTYPE_ARM64_ALL, CPU_SUBTYPE_ARM64_V8,
    CPU_SUBTYPE_ARM_ALL, CPU_SUBTYPE_ARM_V4T, CPU_SUBTYPE_ARM_V5TEJ, CPU_SUBTYPE_ARM_V6,
    CPU_SUBTYPE_ARM_V7, CPU_SUBTYPE_ARM_V7F, CPU_SUBTYPE_ARM_V7K, CPU_SUBTYPE_ARM_V7S,
    CPU_SUBTYPE_ARM_XSCALE, CPU_SUBTYPE_BIG_ENDIAN, CPU_SUBTYPE_HPPA_7100LC,
    CPU_SUBTYPE_HPPA_ALL, CPU_SUBTYPE_I386_ALL, CPU_SUBTYPE_I860_ALL,
    CPU_SUBTYPE_LITTLE_ENDIAN, CPU_SUBTYPE_MASK, CPU_SUBTYPE_MC68030_ONLY,
    CPU_SUBTYPE_MC68040, CPU_SUBTYPE_MC680X0_ALL, CPU_SUBTYPE_MC88000_ALL, CPU_SUBTYPE_PENT,
    CPU_SUBTYPE_PENTII_M3, CPU_SUBTYPE_PENTII_M5, CPU_SUBTYPE_PENTIUM_4, CPU_SUBTYPE_PENTPRO,
    CPU_SUBTYPE_POWERPC_601, CPU_SUBTYPE_POWERPC_603, CPU_SUBTYPE_POWERPC_603E,
    CPU_SUBTYPE_POWERPC_603EV, CPU_SUBTYPE_POWERPC_604, CPU_SUBTYPE_POWERPC_604E,
    CPU_SUBTYPE_POWERPC_7400, CPU_SUBTYPE_POWERPC_7450, CPU_SUBTYPE_POWERPC_750,
    CPU_SUBTYPE_POWERPC_970, CPU_SUBTYPE_POWERPC_ALL, CPU_SUBTYPE_SPARC_ALL,
    CPU_SUBTYPE_X86_64_ALL, CPU_TYPE_ARM, CPU_TYPE_ARM64, CPU_TYPE_HPPA, CPU_TYPE_I386,
    CPU_TYPE_I860, CPU_TYPE_MC680X0, CPU_TYPE_MC88000, CPU_TYPE_POWERPC, CPU_TYPE_POWERPC64,
    CPU_TYPE_SPARC, CPU_TYPE_X86_64, MH_BUNDLE, MH_CORE, MH_DSYM, MH_DYLIB, MH_DYLINKER,
    MH_EXECUTE, MH_KEXT_BUNDLE, MH_OBJECT, X_CPU_SUBTYPE_MULTIPLE, X_CPU_TYPE_ANY,
};
use crate::exec::{DepLib, DepLibView};
use crate::image::{LoadDylibKind, LoadDylibView, MachO, PackedVersion};
use crate::util::append_bytes;

verus! {

/// The name of an architecture, by its CPU type and subtype. The top bit of
/// the subtype is a flag and does not count. Of two entries for one pair the
/// first is taken.
#[verifier::opaque]
pub open spec fn arch_desc(cputype: u32, cpusubtype: u32) -> Option<Seq<char>> {
    let sub = cpusubtype & !CPU_SUBTYPE_MASK;
    if cputype == CPU_TYPE_HPPA && sub == CPU_SUBTYPE_HPPA_ALL {
        Some("hppa"@)
    } else if cputype == CPU_TYPE_I386 && sub == CPU_SUBTYPE_I386_ALL {
        Some("i386"@)
    } else if cputype == CPU_TYPE_X86_64 && sub == CPU_SUBTYPE_X86_64_ALL {
        Some("x86_64"@)
    } else if cputype == CPU_TYPE_I860 && sub == CPU_SUBTYPE_I860_ALL {
        Some("i860"@)
    } else if cputype == CPU_TYPE_MC680X0 && sub == CPU_SUBTYPE_MC680X0_ALL {
        Some("m68k"@)
    } else if cputype == CPU_TYPE_MC88000 && sub == CPU_SUBTYPE_MC88000_ALL {
        Some("m88k"@)
    } else if cputype == CPU_TYPE_POWERPC && sub == CPU_SUBTYPE_POWERPC_ALL {
        Some("ppc"@)
    } else if cputype == CPU_TYPE_POWERPC64 && sub == CPU_SUBTYPE_POWERPC_ALL {
        Some("ppc64"@)
    } else if cputype == CPU_TYPE_SPARC && sub == CPU_SUBTYPE_SPARC_ALL {
        Some("sparc"@)
    } else if cputype == CPU_TYPE_ARM && sub == CPU_SUBTYPE_ARM_ALL {
        Some("arm"@)
    } else if cputype == X_CPU_TYPE_ANY && sub == X_CPU_SUBTYPE_MULTIPLE {
        Some("any"@)
    } else if cputype == CPU_TYPE_HPPA && sub == CPU_SUBTYPE_HPPA_7100LC {
        Some("hppa7100LC"@)
    } else if cputype == CPU_TYPE_MC680X0 && sub == CPU_SUBTYPE_MC68030_ONLY {
        Some("m68030"@)
    } else if cputype == CPU_TYPE_MC680X0 && sub == CPU_SUBTYPE_MC68040 {
        Some("m68040"@)
    } else if cputype == CPU_TYPE_I386 && sub == CPU_SUBTYPE_486 {
        Some("i486"@)
    } else if cputype == CPU_TYPE_I386 && sub == CPU_SUBTYPE_486SX {
        Some("i486SX"@)
    } else if cputype == CPU_TYPE_I386 && sub == CPU_SUBTYPE_PENT {
        Some("pentium"@)
    } else if cputype == CPU_TYPE_I386 && sub == CPU_SUBTYPE_PENTPRO {
        Some("pentpro"@)
    } else if cputype == CPU_TYPE_I386 && sub == CPU_SUBTYPE_PENTII_M3 {
        Some("pentIIm3"@)
    } else if cputype == CPU_TYPE_I386 && sub == CPU_SUBTYPE_PENTII_M5 {
        Some("pentIIm5"@)
    } else if cputype == CPU_TYPE_I386 && sub == CPU_SUBTYPE_PENTIUM_4 {
        Some("pentium4"@)
    } else if cputype == CPU_TYPE_POWERPC && sub == CPU_SUBTYPE_POWERPC_601 {
        Some("ppc601"@)
    } else if cputype == CPU_TYPE_POWERPC && sub == CPU_SUBTYPE_POWERPC_603 {
        Some("ppc603"@)
    } else if cputype == CPU_TYPE_POWERPC && sub == CPU_SUBTYPE_POWERPC_603E {
        Some("ppc603e"@)
    } else if cputype == CPU_TYPE_POWERPC && sub == CPU_SUBTYPE_POWERPC_603EV {
        Some("ppc603ev"@)
    } else if cputype == CPU_TYPE_POWERPC && sub == CPU_SUBTYPE_POWERPC_604 {
        Some("ppc604"@)
    } else if cputype == CPU_TYPE_POWERPC && sub == CPU_SUBTYPE_POWERPC_604E {
        Some("ppc604e"@)
    } else if cputype == CPU_TYPE_POWERPC && sub == CPU_SUBTYPE_POWERPC_750 {
        Some("ppc750"@)
    } else if cputype == CPU_TYPE_POWERPC && sub == CPU_SUBTYPE_POWERPC_7400 {
        Some("ppc7400"@)
    } else if cputype == CPU_TYPE_POWERPC && sub == CPU_SUBTYPE_POWERPC_7450 {
        Some("ppc7450"@)
    } else if cputype == CPU_TYPE_POWERPC && sub == CPU_SUBTYPE_POWERPC_970 {
        Some("ppc970"@)
    } else if cputype == CPU_TYPE_POWERPC64 && sub == CPU_SUBTYPE_POWERPC_970 {
        Some("ppc970-64"@)
    } else if cputype == CPU_TYPE_ARM && sub == CPU_SUBTYPE_ARM_V4T {
        Some("armv4t"@)
    } else if cputype == CPU_TYPE_ARM && sub == CPU_SUBTYPE_ARM_V5TEJ {
        Some("armv5"@)
    } else if cputype == CPU_TYPE_ARM && sub == CPU_SUBTYPE_ARM_XSCALE {
        Some("xscale"@)
    } else if cputype == CPU_TYPE_ARM && sub == CPU_SUBTYPE_ARM_V6 {
        Some("armv6"@)
    } else if cputype == CPU_TYPE_ARM && sub == CPU_SUBTYPE_ARM_V7 {
        Some("armv7"@)
    } else if cputype == CPU_TYPE_ARM && sub == CPU_SUBTYPE_ARM_V7F {
        Some("armv7f"@)
    } else if cputype == CPU_TYPE_ARM && sub == CPU_SUBTYPE_ARM_V7S {
        Some("armv7s"@)
    } else if cputype == CPU_TYPE_ARM && sub == CPU_SUBTYPE_ARM_V7K {
        Some("armv7k"@)
    } else if cputype == CPU_TYPE_ARM64 && sub == CPU_SUBTYPE_ARM64_ALL {
        Some("arm64"@)
    } else if cputype == CPU_TYPE_ARM64 && sub == CPU_SUBTYPE_ARM64_V8 {
        Some("arm64v8"@)
    } else if cputype == X_CPU_TYPE_ANY && sub == CPU_SUBTYPE_LITTLE_ENDIAN {
        Some("little"@)
    } else if cputype == X_CPU_TYPE_ANY && sub == CPU_SUBTYPE_BIG_ENDIAN {
        Some("big"@)
    } else {
        None
    }
}

#[verifier::rlimit(50)]
pub fn mach_arch_desc(cputype: u32, cpusubtype: u32) -> (r: Option<&'static str>)
    ensures
        match r {
            Some(s) => arch_desc(cputype, cpusubtype) == Some(s@),
            None => arch_desc(cputype, cpusubtype) is None,
        },
{
    reveal(arch_desc);
    let sub = cpusubtype & !CPU_SUBTYPE_MASK;
    if cputype == CPU_TYPE_HPPA && sub == CPU_SUBTYPE_HPPA_ALL {
        Some("hppa")
    } else if cputype == CPU_TYPE_I386 && sub == CPU_SUBTYPE_I386_ALL {
        Some("i386")
    } else if cputype == CPU_TYPE_X86_64 && sub == CPU_SUBTYPE_X86_64_ALL {
        Some("x86_64")
    } else if cputype == CPU_TYPE_I860 && sub == CPU_SUBTYPE_I860_ALL {
        Some("i860")
    } else if cputype == CPU_TYPE_MC680X0 && sub == CPU_SUBTYPE_MC680X0_ALL {
        Some("m68k")
    } else if cputype == CPU_TYPE_MC88000 && sub == CPU_SUBTYPE_MC88000_ALL {
        Some("m88k")
    } else if cputype == CPU_TYPE_POWERPC && sub == CPU_SUBTYPE_POWERPC_ALL {
        Some("ppc")
    } else if cputype == CPU_TYPE_POWERPC64 && sub == CPU_SUBTYPE_POWERPC_ALL {
        Some("ppc64")
    } else if cputype == CPU_TYPE_SPARC && sub == CPU_SUBTYPE_SPARC_ALL {
        Some("sparc")
    } else if cputype == CPU_TYPE_ARM && sub == CPU_SUBTYPE_ARM_ALL {
        Some("arm")
    } else if cputype == X_CPU_TYPE_ANY && sub == X_CPU_SUBTYPE_MULTIPLE {
        Some("any")
    } else if cputype == CPU_TYPE_HPPA && sub == CPU_SUBTYPE_HPPA_7100LC {
        Some("hppa7100LC")
    } else if cputype == CPU_TYPE_MC680X0 && sub == CPU_SUBTYPE_MC68030_ONLY {
        Some("m68030")
    } else if cputype == CPU_TYPE_MC680X0 && sub == CPU_SUBTYPE_MC68040 {
        Some("m68040")
    } else if cputype == CPU_TYPE_I386 && sub == CPU_SUBTYPE_486 {
        Some("i486")
    } else if cputype == CPU_TYPE_I386 && sub == CPU_SUBTYPE_486SX {
        Some("i486SX")
    } else if cputype == CPU_TYPE_I386 && sub == CPU_SUBTYPE_PENT {
        Some("pentium")
    } else if cputype == CPU_TYPE_I386 && sub == CPU_SUBTYPE_PENTPRO {
        Some("pentpro")
    } else if cputype == CPU_TYPE_I386 && sub == CPU_SUBTYPE_PENTII_M3 {
        Some("pentIIm3")
    } else if cputype == CPU_TYPE_I386 && sub == CPU_SUBTYPE_PENTII_M5 {
        Some("pentIIm5")
    } else if cputype == CPU_TYPE_I386 && sub == CPU_SUBTYPE_PENTIUM_4 {
        Some("pentium4")
    } else if cputype == CPU_TYPE_POWERPC && sub == CPU_SUBTYPE_POWERPC_601 {
        Some("ppc601")
    } else if cputype == CPU_TYPE_POWERPC && sub == CPU_SUBTYPE_POWERPC_603 {
        Some("ppc603")
    } else if cputype == CPU_TYPE_POWERPC && sub == CPU_SUBTYPE_POWERPC_603E {
        Some("ppc603e")
    } else if cputype == CPU_TYPE_POWERPC && sub == CPU_SUBTYPE_POWERPC_603EV {
        Some("ppc603ev")
    } else if cputype == CPU_TYPE_POWERPC && sub == CPU_SUBTYPE_POWERPC_604 {
        Some("ppc604")
    } else if cputype == CPU_TYPE_POWERPC && sub == CPU_SUBTYPE_POWERPC_604E {
        Some("ppc604e")
    } else if cputype == CPU_TYPE_POWERPC && sub == CPU_SUBTYPE_POWERPC_750 {
        Some("ppc750")
    } else if cputype == CPU_TYPE_POWERPC && sub == CPU_SUBTYPE_POWERPC_7400 {
        Some("ppc7400")
    } else if cputype == CPU_TYPE_POWERPC && sub == CPU_SUBTYPE_POWERPC_7450 {
        Some("ppc7450")
    } else if cputype == CPU_TYPE_POWERPC && sub == CPU_SUBTYPE_POWERPC_970 {
        Some("ppc970")
    } else if cputype == CPU_TYPE_POWERPC64 && sub == CPU_SUBTYPE_POWERPC_970 {
        Some("ppc970-64")
    } else if cputype == CPU_TYPE_ARM && sub == CPU_SUBTYPE_ARM_V4T {
        Some("armv4t")
    } else if cputype == CPU_TYPE_ARM && sub == CPU_SUBTYPE_ARM_V5TEJ {
        Some("armv5")
    } else if cputype == CPU_TYPE_ARM && sub == CPU_SUBTYPE_ARM_XSCALE {
        Some("xscale")
    } else if cputype == CPU_TYPE_ARM && sub == CPU_SUBTYPE_ARM_V6 {
        Some("armv6")
    } else if cputype == CPU_TYPE_ARM && sub == CPU_SUBTYPE_ARM_V7 {
        Some("armv7")
    } else if cputype == CPU_TYPE_ARM && sub == CPU_SUBTYPE_ARM_V7F {
        Some("armv7f")
    } else if cputype == CPU_TYPE_ARM && sub == CPU_SUBTYPE_ARM_V7S {
        Some("armv7s")
    } else if cputype == CPU_TYPE_ARM && sub == CPU_SUBTYPE_ARM_V7K {
        Some("armv7k")
    } else if cputype == CPU_TYPE_ARM64 && sub == CPU_SUBTYPE_ARM64_ALL {
        Some("arm64")
    } else if cputype == CPU_TYPE_ARM64 && sub == CPU_SUBTYPE_ARM64_V8 {
        Some("arm64v8")
    } else if cputype == X_CPU_TYPE_ANY && sub == CPU_SUBTYPE_LITTLE_ENDIAN {
        Some("little")
    } else if cputype == X_CPU_TYPE_ANY && sub == CPU_SUBTYPE_BIG_ENDIAN {
        Some("big")
    } else {
        None
    }
}

/// The digits of `n` in base ten, as ASCII.
pub open spec fn decimal_digits(n: nat) -> Seq<u8>
    decreases n,
{
    if n < 10 {
        seq![(0x30 + n) as u8]
    } else {
        decimal_digits(n / 10).push((0x30 + n % 10) as u8)
    }
}

/// A signed number in base ten, as ASCII.
pub open spec fn decimal_signed(x: int) -> Seq<u8> {
    if x < 0 {
        seq![0x2du8] + decimal_digits((-x) as nat)
    } else {
        decimal_digits(x as nat)
    }
}

/// Appends the digits of `n` in base ten.
pub fn push_decimal(out: &mut Vec<u8>, n: u64)
    ensures
        final(out)@ == old(out)@ + decimal_digits(n as nat),
    decreases n,
{
    if n >= 10 {
        push_decimal(out, n / 10);
    }
    out.push(0x30 + (n % 10) as u8);
    assert(out@ =~= old(out)@ + decimal_digits(n as nat));
}

/// Appends a 32-bit pattern as the signed number it stands for.
pub fn push_decimal_i32(out: &mut Vec<u8>, x: u32)
    ensures
        final(out)@ == old(out)@ + decimal_signed(
            if x >= 0x8000_0000 {
                x - 0x1_0000_0000
            } else {
                x as int
            },
        ),
{
    if x >= 0x8000_0000 {
        out.push(0x2d);
        push_decimal(out, 0x1_0000_0000u64 - x as u64);
        assert(out@ =~= old(out)@ + (seq![0x2du8] + decimal_digits((0x1_0000_0000 - x) as nat)));
    } else {
        push_decimal(out, x as u64);
    }
}

/// The name of a file type.
pub open spec fn filetype_desc(filetype: u32) -> Seq<char> {
    if filetype == MH_OBJECT {
        "object"@
    } else if filetype == MH_EXECUTE {
        "executable"@
    } else if filetype == MH_CORE {
        "core"@
    } else if filetype == MH_DYLIB {
        "dylib"@
    } else if filetype == MH_DYLINKER {
        "dylinker"@
    } else if filetype == MH_BUNDLE {
        "bundle"@
    } else if filetype == MH_DSYM {
        "dSYM"@
    } else if filetype == MH_KEXT_BUNDLE {
        "kext"@
    } else {
        "<unknown filetype>"@
    }
}

/// The signed number that a 32-bit pattern stands for.
pub open spec fn signed_of(x: u32) -> int {
    if x >= 0x8000_0000 {
        x - 0x1_0000_0000
    } else {
        x as int
    }
}

/// The text of a string, as bytes.
pub open spec fn bytes_of(s: Seq<char>) -> Seq<u8> {
    vstd::utf8::encode_utf8(s)
}

/// The description of an image in one line: its file type and its
/// architecture; an architecture without a name is given by its numbers.
pub open spec fn image_desc(cputype: u32, cpusubtype: u32, filetype: u32) -> Seq<u8> {
    bytes_of("Mach-O "@) + bytes_of(filetype_desc(filetype)) + bytes_of("/"@) + (match arch_desc(
        cputype,
        cpusubtype,
    ) {
        Some(d) => bytes_of(d),
        None => bytes_of("<unknown cpu "@) + decimal_signed(signed_of(cputype)) + bytes_of("/"@)
            + decimal_signed(signed_of(cpusubtype)) + bytes_of(">"@),
    })
}

/// A packed version as its three parts with dots between.
pub open spec fn version_text(v: PackedVersion) -> Seq<u8> {
    decimal_digits((v.0 >> 16) as nat) + bytes_of("."@) + decimal_digits(((v.0 >> 8) & 255) as nat)
        + bytes_of("."@) + decimal_digits((v.0 & 255) as nat)
}

/// The mark of the kind of a library.
pub open spec fn kind_text(kind: LoadDylibKind) -> Seq<char> {
    match kind {
        LoadDylibKind::Normal => ""@,
        LoadDylibKind::Weak => " [weak]"@,
        LoadDylibKind::Reexport => " [reexport]"@,
        LoadDylibKind::Upward => " [upward]"@,
    }
}

/// The description of a library: its path, the mark of its kind, its time
/// stamp and its two versions.
pub open spec fn dylib_desc(ld: LoadDylibView) -> Seq<u8> {
    ld.path + bytes_of(kind_text(ld.kind)) + bytes_of(" timestamp="@) + decimal_digits(
        ld.timestamp as nat,
    ) + bytes_of(" cur="@) + version_text(ld.current_version) + bytes_of(" compat="@)
        + version_text(ld.compatibility_version)
}

fn filetype_name(filetype: u32) -> (r: &'static str)
    ensures
        r@ == filetype_desc(filetype),
{
    if filetype == MH_OBJECT {
        "object"
    } else if filetype == MH_EXECUTE {
        "executable"
    } else if filetype == MH_CORE {
        "core"
    } else if filetype == MH_DYLIB {
        "dylib"
    } else if filetype == MH_DYLINKER {
        "dylinker"
    } else if filetype == MH_BUNDLE {
        "bundle"
    } else if filetype == MH_DSYM {
        "dSYM"
    } else if filetype == MH_KEXT_BUNDLE {
        "kext"
    } else {
        "<unknown filetype>"
    }
}

fn push_str(out: &mut Vec<u8>, s: &str)
    ensures
        final(out)@ == old(out)@ + bytes_of(s@),
{
    append_bytes(out, s.as_bytes());
}

fn push_version(out: &mut Vec<u8>, v: PackedVersion)
    ensures
        final(out)@ == old(out)@ + version_text(v),
{
    push_decimal(out, (v.0 >> 16) as u64);
    push_str(out, ".");
    push_decimal(out, ((v.0 >> 8) & 255) as u64);
    push_str(out, ".");
    push_decimal(out, (v.0 & 255) as u64);
    assert(out@ =~= old(out)@ + version_text(v));
}

impl MachO {
    /// The name of the architecture of the image, if it has one.
    pub fn subtype_desc(&self) -> (r: Option<&'static str>)
        ensures
            match r {
                Some(s) => arch_desc(self.mh.cputype, self.mh.cpusubtype) == Some(s@),
                None => arch_desc(self.mh.cputype, self.mh.cpusubtype) is None,
            },
    {
        mach_arch_desc(self.mh.cputype, self.mh.cpusubtype)
    }

    /// The description of the image in one line.
    #[verifier::rlimit(50)]
    pub fn desc(&self) -> (r: Vec<u8>)
        ensures
            r@ == image_desc(self.mh.cputype, self.mh.cpusubtype, self.mh.filetype),
    {
        let ft_desc = filetype_name(self.mh.filetype);
        let mut r: Vec<u8> = Vec::new();
        push_str(&mut r, "Mach-O ");
        push_str(&mut r, ft_desc);
        push_str(&mut r, "/");
        match self.subtype_desc() {
            Some(d) => {
                push_str(&mut r, d);
            },
            None => {
                push_str(&mut r, "<unknown cpu ");
                push_decimal_i32(&mut r, self.mh.cputype);
                push_str(&mut r, "/");
                push_decimal_i32(&mut r, self.mh.cpusubtype);
                push_str(&mut r, ">");
            },
        }
        assert(r@ =~= image_desc(self.mh.cputype, self.mh.cpusubtype, self.mh.filetype));
        r
    }

    /// The libraries that the image depends on, in the order of its load
    /// commands.
    #[verifier::rlimit(50)]
    pub fn get_dep_libs(&self) -> (r: Vec<DepLib>)
        ensures
            r@.len() == self.load_dylib@.len(),
            forall|i: int|
                0 <= i < r@.len() ==> (#[trigger] r@[i])@ == (DepLibView {
                    path: self@.load_dylib[i].path,
                    private: i as usize,
                }),
    {
        let mut r: Vec<DepLib> = Vec::new();
        let mut i: usize = 0;
        while i < self.load_dylib.len()
            invariant
                i <= self.load_dylib@.len(),
                r@.len() == i,
                forall|j: int|
                    0 <= j < i ==> (#[trigger] r@[j])@ == (DepLibView {
                        path: self@.load_dylib[j].path,
                        private: j as usize,
                    }),
            decreases self.load_dylib@.len() - i,
        {
            let path = &self.load_dylib[i].path;
            assert(self@.load_dylib[i as int] == self.load_dylib@[i as int]@);
            let copy = crate::util::copy_range(path.as_slice(), 0, path.len());
            assert(copy@ =~= path@);
            r.push(DepLib { path: copy, private: i });
            i += 1;
        }
        r
    }

    /// The description of one of the libraries that the image depends on.
    #[verifier::rlimit(50)]
    pub fn describe_dep_lib(&self, dl: &DepLib) -> (r: Vec<u8>)
        requires
            dl.private < self.load_dylib@.len(),
        ensures
            r@ == dylib_desc(self@.load_dylib[dl.private as int]),
    {
        let ld = &self.load_dylib[dl.private];
        assert(self@.load_dylib[dl.private as int] == ld@);
        let mut r: Vec<u8> = Vec::new();
        append_bytes(&mut r, ld.path.as_slice());
        push_str(
            &mut r,
            match ld.kind {
                LoadDylibKind::Normal => "",
                LoadDylibKind::Weak => " [weak]",
                LoadDylibKind::Reexport => " [reexport]",
                LoadDylibKind::Upward => " [upward]",
            },
        );
        push_str(&mut r, " timestamp=");
        push_decimal(&mut r, ld.timestamp as u64);
        push_str(&mut r, " cur=");
        push_version(&mut r, ld.current_version);
        push_str(&mut r, " compat=");
        push_version(&mut r, ld.compatibility_version);
        assert(r@ =~= dylib_desc(ld@));
        r
    }
}

} // verus!
