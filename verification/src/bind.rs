//! The interpreter of the dyld bind opcodes, which say what imported symbol
//! is to be bound at what address.

use vstd::prelude::*;
use crate::defs::{
    BIND_OPCODE_ADD_ADDR_ULEB, BIND_OPCODE_DONE, BIND_OPCODE_DO_BIND,
    BIND_OPCODE_DO_BIND_ADD_ADDR_IMM_SCALED, BIND_OPCODE_DO_BIND_ADD_ADDR_ULEB,
    BIND_OPCODE_DO_BIND_ULEB_TIMES_SKIPPING_ULEB, BIND_OPCODE_SET_ADDEND_SLEB,
    BIND_OPCODE_SET_DYLIB_ORDINAL_IMM, BIND_OPCODE_SET_DYLIB_ORDINAL_ULEB,
    BIND_OPCODE_SET_DYLIB_SPECIAL_IMM, BIND_OPCODE_SET_SEGMENT_AND_OFFSET_ULEB,
    BIND_OPCODE_SET_SYMBOL_TRAILING_FLAGS_IMM, BIND_OPCODE_SET_TYPE_IMM,
};
use crate::diag::Warning;
use crate::exec::{SegmentView, SourceLib};
use crate::image::MachO;
use crate::leb128::{leb_at, lemma_leb_from, read_leb128};
use crate::util::{cstr_terminated, find_nul, lemma_nul_from, nul_from};

verus! {

/// The three bind streams of an image.
#[derive(Clone, Copy, Debug, PartialEq, Eq, Structural)]
pub enum WhichBind {
    Bind,
    WeakBind,
    LazyBind,
}

/// The registers of the interpreter.
#[derive(Clone, Copy, Debug)]
pub struct ParseDyldBindState {
    pub source_dylib: SourceLib,
    /// The cursor: the address that the next bind is for.
    pub addr: Option<u64>,
    /// The end of the segment that the cursor was set in.
    pub seg_end: u64,
    pub addend: i64,
    pub typ: u8,
    /// Where in the stream the name of the pending symbol starts, and how
    /// long it is.
    pub symbol: Option<(usize, usize)>,
    /// Whether the pending symbol was bound before by this run of opcodes.
    pub already_bound_this_symbol: bool,
}

/// Where a run of the interpreter stands.
pub struct BindRun {
    pub state: ParseDyldBindState,
    /// The offset of the next opcode.
    pub pos: int,
    /// The binds made so far: the registers as each one found them.
    pub events: Seq<ParseDyldBindState>,
    pub warnings: Seq<Warning>,
    /// Whether the stream was given up.
    pub done: bool,
}

/// The registers at the start of a stream.
pub open spec fn bind_start(which: WhichBind) -> ParseDyldBindState {
    ParseDyldBindState {
        source_dylib: SourceLib::NoLib,
        addr: None,
        seg_end: 0,
        addend: 0,
        typ: if which == WhichBind::LazyBind {
            1
        } else {
            0
        },
        symbol: None,
        already_bound_this_symbol: false,
    }
}

/// The registers after the cursor moved on by `amount`; a cursor that is
/// not set stays so.
pub open spec fn advanced(st: ParseDyldBindState, amount: u64) -> ParseDyldBindState {
    match st.addr {
        Some(a) => ParseDyldBindState { addr: Some(a.wrapping_add(amount)), ..st },
        None => st,
    }
}

/// Whether moving the cursor on by `amount` carries it past the end of its
/// segment.
pub open spec fn leaves_segment(st: ParseDyldBindState, amount: u64) -> bool {
    match st.addr {
        Some(a) => a + amount > st.seg_end,
        None => false,
    }
}

/// The warnings with that of a cursor that left its segment, if it did.
pub open spec fn advance_warned(w: Seq<Warning>, st: ParseDyldBindState, amount: u64) -> Seq<
    Warning,
> {
    if leaves_segment(st, amount) {
        w.push(Warning::BindOutOfRange)
    } else {
        w
    }
}

/// Whether `ord` names one of `ndylibs` libraries: ordinals count from 1.
pub open spec fn ordinal_in_range(ord: u64, ndylibs: nat) -> bool {
    0 < ord <= ndylibs && ord - 1 <= u32::MAX
}

/// The run after the source library was set by ordinal.
pub open spec fn ordinal_set(r: BindRun, pos: int, ord: u64, ndylibs: nat) -> BindRun {
    if ordinal_in_range(ord, ndylibs) {
        BindRun {
            state: ParseDyldBindState {
                source_dylib: SourceLib::Ordinal((ord - 1) as u32),
                ..r.state
            },
            pos,
            ..r
        }
    } else {
        BindRun {
            state: ParseDyldBindState { source_dylib: SourceLib::NoLib, ..r.state },
            pos,
            warnings: r.warnings.push(Warning::BindOrdinalOutOfRange),
            ..r
        }
    }
}

/// The run given up with a warning.
pub open spec fn halted(r: BindRun, pos: int, w: Warning) -> BindRun {
    BindRun { pos, warnings: r.warnings.push(w), done: true, ..r }
}

/// The run after the cursor moved on.
pub open spec fn moved(r: BindRun, pos: int, amount: u64) -> BindRun {
    BindRun {
        state: advanced(r.state, amount),
        pos,
        warnings: advance_warned(r.warnings, r.state, amount),
        ..r
    }
}

/// The run after one bind: the registers are recorded as they are, the
/// symbol counts as bound, and the cursor moves on.
pub open spec fn bound(r: BindRun, pos: int, amount: u64) -> BindRun {
    let marked = ParseDyldBindState { already_bound_this_symbol: true, ..r.state };
    BindRun {
        state: advanced(marked, amount),
        pos,
        events: r.events.push(r.state),
        warnings: advance_warned(r.warnings, marked, amount),
        ..r
    }
}

/// The run after the `k`-th and all later ones of `count` binds, each
/// followed by a move of `skip`.
pub open spec fn bound_times(r: BindRun, count: u64, skip: u64, k: int) -> BindRun
    decreases count - k,
{
    if k < 0 || k >= count {
        r
    } else {
        bound_times(bound(r, r.pos, skip), count, skip, k + 1)
    }
}

/// The source library that a special ordinal stands for.
pub open spec fn special_source(imm: u8) -> SourceLib {
    if imm == 0 {
        SourceLib::Self_
    } else if imm == 0xf {
        SourceLib::MainExecutable
    } else if imm == 0xe {
        SourceLib::Flat
    } else {
        SourceLib::NoLib
    }
}

/// The run after the opcode at `r.pos`.
pub open spec fn bind_step(
    is64: bool,
    segments: Seq<SegmentView>,
    ndylibs: nat,
    stream: Seq<u8>,
    r: BindRun,
) -> BindRun
    recommends
        0 <= r.pos < stream.len(),
{
    let byte = stream[r.pos];
    let imm = byte & 0x0f;
    let opcode = (byte & 0xf0) as u32;
    let p = r.pos + 1;
    let ptr: u64 = if is64 {
        8
    } else {
        4
    };
    if opcode == BIND_OPCODE_DONE {
        BindRun { pos: p, ..r }
    } else if opcode == BIND_OPCODE_SET_DYLIB_ORDINAL_IMM {
        ordinal_set(r, p, imm as u64, ndylibs)
    } else if opcode == BIND_OPCODE_SET_DYLIB_ORDINAL_ULEB {
        match leb_at(stream, p, false) {
            Some((ord, next)) => ordinal_set(r, next, ord, ndylibs),
            None => halted(r, p, Warning::BadLeb128),
        }
    } else if opcode == BIND_OPCODE_SET_DYLIB_SPECIAL_IMM {
        BindRun {
            state: ParseDyldBindState { source_dylib: special_source(imm), ..r.state },
            pos: p,
            warnings: if imm == 0 || imm == 0xf || imm == 0xe {
                r.warnings
            } else {
                r.warnings.push(Warning::BindUnknownSpecialOrdinal)
            },
            ..r
        }
    } else if opcode == BIND_OPCODE_SET_SYMBOL_TRAILING_FLAGS_IMM {
        if cstr_terminated(stream, p) {
            BindRun {
                state: ParseDyldBindState {
                    symbol: Some((p as usize, (nul_from(stream, p) - p) as usize)),
                    already_bound_this_symbol: false,
                    ..r.state
                },
                pos: nul_from(stream, p) + 1,
                ..r
            }
        } else {
            halted(r, p, Warning::BindBadString)
        }
    } else if opcode == BIND_OPCODE_SET_TYPE_IMM {
        BindRun {
            state: ParseDyldBindState { typ: imm, ..r.state },
            pos: p,
            warnings: if imm < 1 || imm > 3 {
                r.warnings.push(Warning::BindUnknownType)
            } else {
                r.warnings
            },
            ..r
        }
    } else if opcode == BIND_OPCODE_SET_ADDEND_SLEB {
        match leb_at(stream, p, true) {
            Some((v, next)) => BindRun {
                state: ParseDyldBindState { addend: v as i64, ..r.state },
                pos: next,
                ..r
            },
            None => halted(r, p, Warning::BadLeb128),
        }
    } else if opcode == BIND_OPCODE_SET_SEGMENT_AND_OFFSET_ULEB {
        match leb_at(stream, p, false) {
            Some((offset, next)) => if imm < segments.len() {
                let seg = segments[imm as int];
                moved(
                    BindRun {
                        state: ParseDyldBindState {
                            addr: Some(seg.vmaddr),
                            seg_end: seg.vmaddr.wrapping_add(seg.vmsize),
                            ..r.state
                        },
                        ..r
                    },
                    next,
                    offset,
                )
            } else {
                BindRun { pos: next, warnings: r.warnings.push(Warning::BindBadSegment), ..r }
            },
            None => halted(r, p, Warning::BadLeb128),
        }
    } else if opcode == BIND_OPCODE_ADD_ADDR_ULEB {
        match leb_at(stream, p, false) {
            Some((amount, next)) => moved(r, next, amount),
            None => halted(r, p, Warning::BadLeb128),
        }
    } else if opcode == BIND_OPCODE_DO_BIND {
        bound(r, p, ptr)
    } else if opcode == BIND_OPCODE_DO_BIND_ADD_ADDR_ULEB {
        match leb_at(stream, p, false) {
            Some((amount, next)) => bound(r, next, amount.wrapping_add(ptr)),
            None => halted(r, p, Warning::BadLeb128),
        }
    } else if opcode == BIND_OPCODE_DO_BIND_ADD_ADDR_IMM_SCALED {
        bound(r, p, (imm * ptr + ptr) as u64)
    } else if opcode == BIND_OPCODE_DO_BIND_ULEB_TIMES_SKIPPING_ULEB {
        match leb_at(stream, p, false) {
            Some((count, mid)) => match leb_at(stream, mid, false) {
                Some((skip, next)) => BindRun { pos: next, ..bound_times(r, count, skip, 0) },
                None => halted(r, p, Warning::BadLeb128),
            },
            None => halted(r, p, Warning::BadLeb128),
        }
    } else {
        halted(r, p, Warning::BindUnknownOpcode)
    }
}

/// Repeated binds leave the place in the stream and the flag as they are.
pub proof fn lemma_bound_times(r: BindRun, count: u64, skip: u64, k: int)
    requires
        0 <= k <= count,
    ensures
        bound_times(r, count, skip, k).pos == r.pos,
        bound_times(r, count, skip, k).done == r.done,
        bound_times(r, count, skip, k).events.len() == r.events.len() + (count - k),
    decreases count - k,
{
    if k < count {
        lemma_bound_times(bound(r, r.pos, skip), count, skip, k + 1);
    }
}

/// The address `a` moved on `times` times by `skip`, within 64 bits.
pub open spec fn moved_on(a: u64, times: int, skip: u64) -> u64 {
    ((a + times * skip) % 0x1_0000_0000_0000_0000) as u64
}

/// Repeated binds make one event each, and leave the cursor, where it is
/// set, moved on by the skip as many times as there were binds.
pub proof fn lemma_bound_times_cursor(r: BindRun, count: u64, skip: u64, k: int)
    requires
        0 <= k <= count,
    ensures
        bound_times(r, count, skip, k).events.len() == r.events.len() + (count - k),
        match r.state.addr {
            Some(a) => bound_times(r, count, skip, k).state.addr == Some(
                moved_on(a, count - k, skip),
            ),
            None => bound_times(r, count, skip, k).state.addr is None,
        },
    decreases count - k,
{
    if k < count {
        let next = bound(r, r.pos, skip);
        lemma_bound_times_cursor(next, count, skip, k + 1);
        match r.state.addr {
            Some(a) => {
                let b = a.wrapping_add(skip);
                let m = 0x1_0000_0000_0000_0000int;
                let rest = count - k - 1;
                assert(next.state.addr == Some(b));
                assert(b == (a + skip) % m) by {
                    if a + skip > u64::MAX {
                        vstd::arithmetic::div_mod::lemma_fundamental_div_mod_converse(
                            a + skip,
                            m,
                            1,
                            a + skip - m,
                        );
                    } else {
                        vstd::arithmetic::div_mod::lemma_small_mod((a + skip) as nat, m as nat);
                    }
                }
                assert((b + rest * skip) % m == (a + (rest + 1) * skip) % m) by {
                    vstd::arithmetic::div_mod::lemma_add_mod_noop(a + skip, rest * skip, m);
                    vstd::arithmetic::div_mod::lemma_add_mod_noop(b as int, rest * skip, m);
                    vstd::arithmetic::div_mod::lemma_small_mod(b as nat, m as nat);
                    vstd::arithmetic::mul::lemma_mul_is_distributive_add_other_way(
                        skip as int,
                        rest,
                        1,
                    );
                    assert((rest + 1) * skip == rest * skip + skip);
                    assert(b + rest * skip == (a + skip) % m + rest * skip);
                }
                assert(moved_on(b, rest, skip) == moved_on(a, count - k, skip));
            },
            None => {},
        }
    } else {
        match r.state.addr {
            Some(a) => {
                vstd::arithmetic::mul::lemma_mul_basics(skip as int);
                assert((count - k) * skip == 0);
                vstd::arithmetic::div_mod::lemma_small_mod(
                    a as nat,
                    0x1_0000_0000_0000_0000nat,
                );
                assert(moved_on(a, count - k, skip) == a);
            },
            None => {},
        }
    }
}

/// Every opcode takes at least one byte.
#[verifier::rlimit(50)]
pub proof fn lemma_bind_step_advances(
    is64: bool,
    segments: Seq<SegmentView>,
    ndylibs: nat,
    stream: Seq<u8>,
    r: BindRun,
)
    requires
        0 <= r.pos < stream.len(),
    ensures
        r.pos < bind_step(is64, segments, ndylibs, stream, r).pos <= stream.len(),
{
    let p = r.pos + 1;
    lemma_leb_from(stream, p, 0, 0, false);
    lemma_leb_from(stream, p, 0, 0, true);
    lemma_nul_from(stream, p);
    match leb_at(stream, p, false) {
        Some((count, mid)) => {
            lemma_leb_from(stream, mid, 0, 0, false);
            match leb_at(stream, mid, false) {
                Some((skip, next)) => {
                    lemma_bound_times(r, count, skip, 0);
                },
                None => {},
            }
        },
        None => {},
    }
}

/// The opcode that binds a number of times, skipping a number of bytes
/// each time, makes as many events as it says, and leaves the cursor moved on
/// by the skip that many times: the width of a pointer does not count, nor
/// does the byte order of the image.
pub proof fn lemma_bind_times_step(
    is64: bool,
    segments: Seq<SegmentView>,
    ndylibs: nat,
    stream: Seq<u8>,
    r: BindRun,
    count: u64,
    skip: u64,
    mid: int,
    next: int,
)
    requires
        0 <= r.pos < stream.len(),
        (stream[r.pos] & 0xf0) as u32 == BIND_OPCODE_DO_BIND_ULEB_TIMES_SKIPPING_ULEB,
        leb_at(stream, r.pos + 1, false) == Some((count, mid)),
        leb_at(stream, mid, false) == Some((skip, next)),
    ensures
        ({
            let after = bind_step(is64, segments, ndylibs, stream, r);
            &&& after.events.len() == r.events.len() + count
            &&& after.pos == next
            &&& after.done == r.done
            &&& match r.state.addr {
                Some(a) => after.state.addr == Some(moved_on(a, count as int, skip)),
                None => after.state.addr is None,
            }
        }),
{
    lemma_bound_times_cursor(r, count, skip, 0);
    lemma_bound_times(r, count, skip, 0);
}

/// The run when the stream is played from `r.pos` to its end, or until it
/// is given up.
pub open spec fn bind_run_from(
    is64: bool,
    segments: Seq<SegmentView>,
    ndylibs: nat,
    stream: Seq<u8>,
    r: BindRun,
) -> BindRun
    decreases stream.len() - r.pos,
{
    if r.done || r.pos < 0 || r.pos >= stream.len() {
        r
    } else {
        proof {
            lemma_bind_step_advances(is64, segments, ndylibs, stream, r);
        }
        bind_run_from(is64, segments, ndylibs, stream, bind_step(is64, segments, ndylibs, stream, r))
    }
}

/// The run of a whole stream.
pub open spec fn bind_run(
    is64: bool,
    segments: Seq<SegmentView>,
    ndylibs: nat,
    stream: Seq<u8>,
    which: WhichBind,
    warnings: Seq<Warning>,
) -> BindRun {
    bind_run_from(
        is64,
        segments,
        ndylibs,
        stream,
        BindRun { state: bind_start(which), pos: 0, events: Seq::empty(), warnings, done: false },
    )
}

/// What the interpreter gives back.
pub struct BindOutcome {
    /// One entry for each bind, in the order of the stream: the registers as
    /// the bind found them.
    pub events: Vec<ParseDyldBindState>,
    /// The registers at the end.
    pub last: ParseDyldBindState,
}

/// Whether the names of the pending symbols lie within a stream of `len`
/// bytes.
pub open spec fn symbol_in_stream(st: ParseDyldBindState, len: nat) -> bool {
    match st.symbol {
        Some((start, n)) => start + n <= len,
        None => true,
    }
}

fn advance(state: &mut ParseDyldBindState, amount: u64, warnings: &mut Vec<Warning>)
    ensures
        *final(state) == advanced(*old(state), amount),
        final(warnings)@ == advance_warned(old(warnings)@, *old(state), amount),
{
    if let Some(addr) = state.addr {
        if addr > state.seg_end || amount > state.seg_end - addr {
            warnings.push(Warning::BindOutOfRange);
        }
        state.addr = Some(addr.wrapping_add(amount));
    }
}

fn set_dylib_ordinal(
    state: &mut ParseDyldBindState,
    ord: u64,
    ndylibs: usize,
    warnings: &mut Vec<Warning>,
)
    ensures
        *final(state) == (ParseDyldBindState {
            source_dylib: if ordinal_in_range(ord, ndylibs as nat) {
                SourceLib::Ordinal((ord - 1) as u32)
            } else {
                SourceLib::NoLib
            },
            ..*old(state)
        }),
        final(warnings)@ == (if ordinal_in_range(ord, ndylibs as nat) {
            old(warnings)@
        } else {
            old(warnings)@.push(Warning::BindOrdinalOutOfRange)
        }),
{
    if ord == 0 || ord > ndylibs as u64 || ord - 1 > 0xffff_ffff {
        warnings.push(Warning::BindOrdinalOutOfRange);
        state.source_dylib = SourceLib::NoLib;
    } else {
        state.source_dylib = SourceLib::Ordinal((ord - 1) as u32);
    }
}

impl MachO {
    /// Plays a bind stream.
    #[verifier::rlimit(50)]
    pub fn parse_dyld_bind(&self, stream: &[u8], which: WhichBind, warnings: &mut Vec<Warning>) -> (r:
        BindOutcome)
        ensures
            ({
                let run = bind_run(
                    self.is64,
                    self@.segments,
                    self.load_dylib@.len(),
                    stream@,
                    which,
                    old(warnings)@,
                );
                &&& r.events@ == run.events
                &&& r.last == run.state
                &&& final(warnings)@ == run.warnings
            }),
            forall|i: int|
                0 <= i < r.events@.len() ==> symbol_in_stream(#[trigger] r.events@[i], stream@.len()),
    {
        let is64 = self.is64;
        let pointer_size: u64 = if is64 {
            8
        } else {
            4
        };
        let ndylibs = self.load_dylib.len();
        let ghost segments = self@.segments;
        let ghost target = bind_run(
            is64,
            segments,
            ndylibs as nat,
            stream@,
            which,
            warnings@,
        );
        let mut state = ParseDyldBindState {
            source_dylib: SourceLib::NoLib,
            addr: None,
            seg_end: 0,
            addend: 0,
            typ: match which {
                WhichBind::LazyBind => 1,
                _ => 0,
            },
            symbol: None,
            already_bound_this_symbol: false,
        };
        let mut events: Vec<ParseDyldBindState> = Vec::new();
        let mut pos: usize = 0;
        assert(stream@.len() == stream.len());
        while pos < stream.len()
            invariant_except_break
                bind_run_from(
                    is64,
                    segments,
                    ndylibs as nat,
                    stream@,
                    BindRun { state, pos: pos as int, events: events@, warnings: warnings@, done: false },
                ) == target,
            invariant
                stream@.len() == stream.len(),
                segments == self@.segments,
                ndylibs == self.load_dylib@.len(),
                pointer_size == (if is64 {
                    8u64
                } else {
                    4u64
                }),
                symbol_in_stream(state, stream@.len()),
                forall|i: int|
                    0 <= i < events@.len() ==> symbol_in_stream(#[trigger] events@[i], stream@.len()),
            ensures
                events@ == target.events,
                state == target.state,
                warnings@ == target.warnings,
            decreases stream@.len() - pos,
        {
            let ghost cur = BindRun {
                state,
                pos: pos as int,
                events: events@,
                warnings: warnings@,
                done: false,
            };
            let ghost next_run = bind_step(is64, segments, ndylibs as nat, stream@, cur);
            proof {
                lemma_bind_step_advances(is64, segments, ndylibs as nat, stream@, cur);
                lemma_leb_from(stream@, pos + 1, 0, 0, false);
                lemma_leb_from(stream@, pos + 1, 0, 0, true);
            }
            let byte = stream[pos];
            let immediate = byte & 0x0f;
            let opcode = (byte & 0xf0) as u32;
            let p = pos + 1;
            let mut halt = false;
            if opcode == BIND_OPCODE_DONE {
                pos = p;
            } else if opcode == BIND_OPCODE_SET_DYLIB_ORDINAL_IMM {
                set_dylib_ordinal(&mut state, immediate as u64, ndylibs, warnings);
                pos = p;
            } else if opcode == BIND_OPCODE_SET_DYLIB_ORDINAL_ULEB {
                match read_leb128(stream, p, false) {
                    Some((ord, next)) => {
                        set_dylib_ordinal(&mut state, ord, ndylibs, warnings);
                        pos = next;
                    },
                    None => {
                        warnings.push(Warning::BadLeb128);
                        halt = true;
                    },
                }
            } else if opcode == BIND_OPCODE_SET_DYLIB_SPECIAL_IMM {
                state.source_dylib = if immediate == 0 {
                    SourceLib::Self_
                } else if immediate == 0xf {
                    SourceLib::MainExecutable
                } else if immediate == 0xe {
                    SourceLib::Flat
                } else {
                    warnings.push(Warning::BindUnknownSpecialOrdinal);
                    SourceLib::NoLib
                };
                pos = p;
            } else if opcode == BIND_OPCODE_SET_SYMBOL_TRAILING_FLAGS_IMM {
                let n = find_nul(stream, p);
                if n < stream.len() {
                    state.symbol = Some((p, n - p));
                    state.already_bound_this_symbol = false;
                    pos = n + 1;
                } else {
                    warnings.push(Warning::BindBadString);
                    halt = true;
                }
            } else if opcode == BIND_OPCODE_SET_TYPE_IMM {
                state.typ = immediate;
                if immediate < 1 || immediate > 3 {
                    warnings.push(Warning::BindUnknownType);
                }
                pos = p;
            } else if opcode == BIND_OPCODE_SET_ADDEND_SLEB {
                match read_leb128(stream, p, true) {
                    Some((v, next)) => {
                        state.addend = #[verifier::truncate] (v as i64);
                        pos = next;
                    },
                    None => {
                        warnings.push(Warning::BadLeb128);
                        halt = true;
                    },
                }
            } else if opcode == BIND_OPCODE_SET_SEGMENT_AND_OFFSET_ULEB {
                match read_leb128(stream, p, false) {
                    Some((offset, next)) => {
                        if (immediate as usize) < self.eb.segments.len() {
                            let seg = &self.eb.segments[immediate as usize];
                            assert(segments[immediate as int] == seg@);
                            state.addr = Some(seg.vmaddr);
                            state.seg_end = seg.vmaddr.wrapping_add(seg.vmsize);
                            advance(&mut state, offset, warnings);
                        } else {
                            warnings.push(Warning::BindBadSegment);
                        }
                        pos = next;
                    },
                    None => {
                        warnings.push(Warning::BadLeb128);
                        halt = true;
                    },
                }
            } else if opcode == BIND_OPCODE_ADD_ADDR_ULEB {
                match read_leb128(stream, p, false) {
                    Some((amount, next)) => {
                        advance(&mut state, amount, warnings);
                        pos = next;
                    },
                    None => {
                        warnings.push(Warning::BadLeb128);
                        halt = true;
                    },
                }
            } else if opcode == BIND_OPCODE_DO_BIND {
                events.push(state);
                state.already_bound_this_symbol = true;
                advance(&mut state, pointer_size, warnings);
                pos = p;
            } else if opcode == BIND_OPCODE_DO_BIND_ADD_ADDR_ULEB {
                match read_leb128(stream, p, false) {
                    Some((amount, next)) => {
                        events.push(state);
                        state.already_bound_this_symbol = true;
                        advance(&mut state, amount.wrapping_add(pointer_size), warnings);
                        pos = next;
                    },
                    None => {
                        warnings.push(Warning::BadLeb128);
                        halt = true;
                    },
                }
            } else if opcode == BIND_OPCODE_DO_BIND_ADD_ADDR_IMM_SCALED {
                assert(immediate <= 15) by (bit_vector)
                    requires
                        immediate == byte & 0x0f,
                ;
                events.push(state);
                state.already_bound_this_symbol = true;
                advance(&mut state, (immediate as u64) * pointer_size + pointer_size, warnings);
                pos = p;
            } else if opcode == BIND_OPCODE_DO_BIND_ULEB_TIMES_SKIPPING_ULEB {
                match read_leb128(stream, p, false) {
                    Some((count, mid)) => {
                        proof {
                            lemma_leb_from(stream@, mid as int, 0, 0, false);
                        }
                        match read_leb128(stream, mid, false) {
                            Some((skip, next)) => {
                                let mut k: u64 = 0;
                                while k < count
                                    invariant
                                        k <= count,
                                        bound_times(
                                            BindRun {
                                                state,
                                                pos: pos as int,
                                                events: events@,
                                                warnings: warnings@,
                                                done: false,
                                            },
                                            count,
                                            skip,
                                            k as int,
                                        ) == bound_times(cur, count, skip, 0),
                                        symbol_in_stream(state, stream@.len()),
                                        forall|i: int|
                                            0 <= i < events@.len() ==> symbol_in_stream(
                                                #[trigger] events@[i],
                                                stream@.len(),
                                            ),
                                    decreases count - k,
                                {
                                    events.push(state);
                                    state.already_bound_this_symbol = true;
                                    advance(&mut state, skip, warnings);
                                    k += 1;
                                }
                                pos = next;
                            },
                            None => {
                                warnings.push(Warning::BadLeb128);
                                halt = true;
                            },
                        }
                    },
                    None => {
                        warnings.push(Warning::BadLeb128);
                        halt = true;
                    },
                }
            } else {
                warnings.push(Warning::BindUnknownOpcode);
                halt = true;
            }
            assert(state == next_run.state);
            assert(events@ == next_run.events);
            assert(warnings@ == next_run.warnings);
            assert(halt == next_run.done);
            if halt {
                assert(bind_run_from(is64, segments, ndylibs as nat, stream@, next_run)
                    == next_run);
                break ;
            }
            assert(pos == next_run.pos);
        }
        BindOutcome { events, last: state }
    }
}

} // verus!
