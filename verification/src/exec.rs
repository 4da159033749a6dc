//! The value shapes shared by executable formats: architecture, segment,
//! symbol, dependent library, and the error kinds.

use vstd::prelude::*;
use crate::util::Endian;

verus! {

#[derive(Clone, Copy, Debug, PartialEq, Eq, Structural)]
pub enum Arch {
    X86,
    X86_64,
    ARM,
    AArch64,
    PowerPC,
    UnknownArch,
}

/// Protection bits of a segment.
#[derive(Clone, Copy, Debug, PartialEq, Eq, Structural)]
pub struct Prot {
    pub r: bool,
    pub w: bool,
    pub x: bool,
}

/// The view of an optional byte string.
pub open spec fn opt_bytes(o: Option<Vec<u8>>) -> Option<Seq<u8>> {
    match o {
        Some(v) => Some(v@),
        None => None,
    }
}

/// A segment, or a section of one: a section names its segment by `seg_idx`.
#[derive(Clone, Debug)]
pub struct Segment {
    pub vmaddr: u64,
    pub vmsize: u64,
    pub fileoff: u64,
    pub filesize: u64,
    pub name: Option<Vec<u8>>,
    pub prot: Prot,
    /// The bytes that back it, where the file holds them.
    pub data: Option<Vec<u8>>,
    /// For a section, the index of the segment it belongs to.
    pub seg_idx: Option<usize>,
    /// For a segment, the index of the load command it came from; for a
    /// section, its index within that command. `None` when newly made.
    pub private: Option<usize>,
}

pub struct SegmentView {
    pub vmaddr: u64,
    pub vmsize: u64,
    pub fileoff: u64,
    pub filesize: u64,
    pub name: Option<Seq<u8>>,
    pub prot: Prot,
    pub data: Option<Seq<u8>>,
    pub seg_idx: Option<usize>,
    pub private: Option<usize>,
}

impl View for Segment {
    type V = SegmentView;

    open spec fn view(&self) -> SegmentView {
        SegmentView {
            vmaddr: self.vmaddr,
            vmsize: self.vmsize,
            fileoff: self.fileoff,
            filesize: self.filesize,
            name: opt_bytes(self.name),
            prot: self.prot,
            data: opt_bytes(self.data),
            seg_idx: self.seg_idx,
            private: self.private,
        }
    }
}

/// The views of a list of segments.
pub open spec fn segment_views(v: Seq<Segment>) -> Seq<SegmentView> {
    v.map_values(|s: Segment| s@)
}

impl Segment {
    /// The bytes that back the segment; none when it has no data.
    pub fn get_data(&self) -> (r: &[u8])
        ensures
            r@ == segment_data(self@),
    {
        match &self.data {
            Some(d) => d.as_slice(),
            None => {
                let e: &[u8] = &[];
                assert(e@ =~= Seq::<u8>::empty());
                e
            },
        }
    }
}

/// The bytes that back a segment; none when it has no data.
pub open spec fn segment_data(s: SegmentView) -> Seq<u8> {
    match s.data {
        Some(d) => d,
        None => Seq::empty(),
    }
}

/// Where an undefined symbol is to be found.
#[derive(Clone, Copy, Debug, PartialEq, Eq, Structural)]
pub enum SourceLib {
    /// No library is named.
    NoLib,
    Flat,
    Self_,
    MainExecutable,
    Ordinal(u32),
}

#[derive(Clone, Debug)]
pub enum SymbolValue {
    Addr(u64),
    Abs(u64),
    ThreadLocal(u64),
    Undefined(SourceLib),
    /// The resolver's address, and the stub's where there is one.
    Resolver(u64, Option<u64>),
    /// The name the symbol stands for.
    ReExport(Vec<u8>),
}

pub enum SymbolValueView {
    Addr(u64),
    Abs(u64),
    ThreadLocal(u64),
    Undefined(SourceLib),
    Resolver(u64, Option<u64>),
    ReExport(Seq<u8>),
}

impl View for SymbolValue {
    type V = SymbolValueView;

    open spec fn view(&self) -> SymbolValueView {
        match *self {
            SymbolValue::Addr(a) => SymbolValueView::Addr(a),
            SymbolValue::Abs(a) => SymbolValueView::Abs(a),
            SymbolValue::ThreadLocal(a) => SymbolValueView::ThreadLocal(a),
            SymbolValue::Undefined(s) => SymbolValueView::Undefined(s),
            SymbolValue::Resolver(a, s) => SymbolValueView::Resolver(a, s),
            SymbolValue::ReExport(n) => SymbolValueView::ReExport(n@),
        }
    }
}

#[derive(Clone, Debug)]
pub struct Symbol {
    pub name: Vec<u8>,
    pub is_public: bool,
    pub is_weak: bool,
    pub val: SymbolValue,
    pub size: Option<u64>,
    /// Where the symbol was found: a byte offset in its table or trie.
    pub private: usize,
}

pub struct SymbolView {
    pub name: Seq<u8>,
    pub is_public: bool,
    pub is_weak: bool,
    pub val: SymbolValueView,
    pub size: Option<u64>,
    pub private: usize,
}

impl View for Symbol {
    type V = SymbolView;

    open spec fn view(&self) -> SymbolView {
        SymbolView {
            name: self.name@,
            is_public: self.is_public,
            is_weak: self.is_weak,
            val: self.val@,
            size: self.size,
            private: self.private,
        }
    }
}

/// The views of a list of symbols.
pub open spec fn symbol_views(v: Seq<Symbol>) -> Seq<SymbolView> {
    v.map_values(|s: Symbol| s@)
}

/// Which symbols to list.
#[derive(Clone, Copy, Debug, PartialEq, Eq, Structural)]
pub enum SymbolSource {
    All,
    Imported,
    Exported,
}

/// A library the image depends on.
#[derive(Clone, Debug)]
pub struct DepLib {
    pub path: Vec<u8>,
    /// Its index among the image's libraries.
    pub private: usize,
}

pub struct DepLibView {
    pub path: Seq<u8>,
    pub private: usize,
}

impl View for DepLib {
    type V = DepLibView;

    open spec fn view(&self) -> DepLibView {
        DepLibView { path: self.path@, private: self.private }
    }
}

#[derive(Clone, Copy, Debug, PartialEq, Eq, Structural)]
pub enum ErrorKind {
    BadData,
    Other,
}

/// What every executable format keeps of an image.
#[derive(Clone, Debug)]
pub struct ExecBase {
    pub arch: Arch,
    pub endian: Endian,
    pub segments: Vec<Segment>,
    pub sections: Vec<Segment>,
    pub whole_buf: Option<Vec<u8>>,
}

/// What a prober found in a buffer.
#[derive(Clone, Debug)]
pub struct ProbeResult {
    /// A description in words.
    pub desc: Vec<u8>,
    pub arch: Arch,
    pub likely: bool,
    /// The words of the command that opens what was found.
    pub cmd: Vec<Vec<u8>>,
}

} // verus!
