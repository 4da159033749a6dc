//! The walk over the export trie, which holds every symbol that an image
//! exports under a path of edge labels.

use vstd::prelude::*;
use crate::defs::{
    EXPORT_SYMBOL_FLAGS_KIND_ABSOLUTE, EXPORT_SYMBOL_FLAGS_KIND_MASK,
    EXPORT_SYMBOL_FLAGS_REEXPORT, EXPORT_SYMBOL_FLAGS_STUB_AND_RESOLVER,
};
use crate::diag::Warning;
use crate::image::MachO;
use crate::leb128::{leb_at, read_leb128};
use crate::util::{append_bytes, copy_range, cstr_at, cstr_terminated, find_nul, nul_from};

verus! {

/// One exported symbol.
#[derive(Clone, Debug)]
pub struct ExportEntry {
    pub name: Vec<u8>,
    pub addr: u64,
    pub flags: u32,
    pub resolver: Option<u64>,
    /// For a re-export: the ordinal of the library and the name there.
    pub reexport: Option<(u64, Vec<u8>)>,
    /// The offset of the node in the trie.
    pub offset: usize,
}

pub struct ExportEntryView {
    pub name: Seq<u8>,
    pub addr: u64,
    pub flags: u32,
    pub resolver: Option<u64>,
    pub reexport: Option<(u64, Seq<u8>)>,
    pub offset: usize,
}

impl View for ExportEntry {
    type V = ExportEntryView;

    open spec fn view(&self) -> ExportEntryView {
        ExportEntryView {
            name: self.name@,
            addr: self.addr,
            flags: self.flags,
            resolver: self.resolver,
            reexport: match self.reexport {
                Some((ord, name)) => Some((ord, name@)),
                None => None,
            },
            offset: self.offset,
        }
    }
}

/// The views of a list of exports.
pub open spec fn export_views(v: Seq<ExportEntry>) -> Seq<ExportEntryView> {
    v.map_values(|e: ExportEntry| e@)
}

/// The views of a work list: node offsets with the names that lead to them.
pub open spec fn work_views(v: Seq<(usize, Vec<u8>)>) -> Seq<(usize, Seq<u8>)> {
    v.map_values(|t: (usize, Vec<u8>)| (t.0, t.1@))
}

/// What reading the terminal part of a node gave.
pub struct TerminalRead {
    pub warnings: Seq<Warning>,
    /// The export of the node, if it has one.
    pub entry: Option<ExportEntryView>,
    /// Where the edges of the node start; `None` where the node is skipped.
    pub edges_at: Option<int>,
}

/// A node that is skipped with a warning.
pub open spec fn skipped(w: Seq<Warning>, x: Warning) -> TerminalRead {
    TerminalRead { warnings: w.push(x), entry: None, edges_at: None }
}

/// The warnings with those that the flags of an export earn.
pub open spec fn flags_warned(w: Seq<Warning>, flags: u32) -> Seq<Warning> {
    let w1 = if flags & EXPORT_SYMBOL_FLAGS_KIND_MASK == 3 {
        w.push(Warning::ExportKindThree)
    } else {
        w
    };
    if flags > 0x1f {
        w1.push(Warning::ExportUnknownFlags)
    } else {
        w1
    }
}

/// The end of a terminal part, `t`, that was read up to `p`.
pub open spec fn terminal_finished(
    t: Seq<u8>,
    offset: usize,
    prefix: Seq<u8>,
    flags: u32,
    addr: u64,
    resolver: Option<u64>,
    reexport: Option<(u64, Seq<u8>)>,
    p: int,
    w: Seq<Warning>,
) -> TerminalRead {
    TerminalRead {
        warnings: if p < t.len() {
            w.push(Warning::ExportExcessTerminalData)
        } else {
            w
        },
        entry: Some(ExportEntryView { name: prefix, addr, flags, resolver, reexport, offset }),
        edges_at: Some(t.len() as int),
    }
}

/// The rest of a terminal part from the re-export on, which starts at `p`.
/// An export cannot be both a resolver and a re-export.
pub open spec fn reexport_read(
    t: Seq<u8>,
    offset: usize,
    prefix: Seq<u8>,
    flags: u32,
    addr: u64,
    resolver: Option<u64>,
    p: int,
    w: Seq<Warning>,
) -> TerminalRead {
    if flags & EXPORT_SYMBOL_FLAGS_REEXPORT != 0 {
        if resolver is Some {
            skipped(w, Warning::ExportResolverAndReexport)
        } else {
            match leb_at(t, p, false) {
                None => skipped(w, Warning::BadLeb128),
                Some((ord, at2)) => if !cstr_terminated(t, at2) {
                    skipped(w, Warning::ExportBadReexportName)
                } else {
                    terminal_finished(
                        t,
                        offset,
                        prefix,
                        flags,
                        addr,
                        resolver,
                        Some((ord, cstr_at(t, at2))),
                        nul_from(t, at2) + 1,
                        w,
                    )
                },
            }
        }
    } else {
        terminal_finished(t, offset, prefix, flags, addr, resolver, None, p, w)
    }
}

/// The terminal part `t` of a node, read from the flags on, which start at
/// `p`. Addresses are relative to `base`, but for an absolute export.
pub open spec fn payload_read(
    t: Seq<u8>,
    base: u64,
    offset: usize,
    prefix: Seq<u8>,
    p: int,
    w: Seq<Warning>,
) -> TerminalRead {
    match leb_at(t, p, false) {
        None => skipped(w, Warning::BadLeb128),
        Some((f, at2)) => if f > u32::MAX {
            skipped(w, Warning::ExportTooManyFlags)
        } else {
            let flags = f as u32;
            let w1 = flags_warned(w, flags);
            match leb_at(t, at2, false) {
                None => skipped(w1, Warning::BadLeb128),
                Some((a, at3)) => {
                    let addr = (if flags & EXPORT_SYMBOL_FLAGS_KIND_MASK
                        == EXPORT_SYMBOL_FLAGS_KIND_ABSOLUTE {
                        0u64
                    } else {
                        base
                    }).wrapping_add(a);
                    if flags & EXPORT_SYMBOL_FLAGS_STUB_AND_RESOLVER != 0 {
                        match leb_at(t, at3, false) {
                            None => skipped(w1, Warning::BadLeb128),
                            Some((r, at4)) => reexport_read(
                                t,
                                offset,
                                prefix,
                                flags,
                                addr,
                                Some(base.wrapping_add(r)),
                                at4,
                                w1,
                            ),
                        }
                    } else {
                        reexport_read(t, offset, prefix, flags, addr, None, at3, w1)
                    }
                },
            }
        },
    }
}

/// The terminal part of the node at `offset`: its size comes first; a size
/// of 0 says that the node exports nothing.
pub open spec fn terminal_read(
    blob: Seq<u8>,
    base: u64,
    offset: usize,
    prefix: Seq<u8>,
    w: Seq<Warning>,
) -> TerminalRead {
    match leb_at(blob, offset as int, false) {
        None => skipped(w, Warning::BadLeb128),
        Some((size, p)) => if size > blob.len() - p {
            skipped(w, Warning::ExportTerminalTooBig)
        } else if size == 0 {
            TerminalRead { warnings: w, entry: None, edges_at: Some(p) }
        } else {
            payload_read(blob.subrange(0, p + size), base, offset, prefix, p, w)
        },
    }
}

/// Where the walk over a trie stands.
pub struct TrieWalk {
    /// The nodes still to visit, the next one last.
    pub work: Seq<(usize, Seq<u8>)>,
    /// For each offset, whether a node there was put on the work list.
    pub seen: Seq<bool>,
    pub out: Seq<ExportEntryView>,
    /// The offsets of the nodes visited, in order.
    pub visited: Seq<usize>,
    pub warnings: Seq<Warning>,
}

/// The walk after `k` more edges, the first of which starts at `pos`, were
/// read. An edge to an offset past the trie, or to a node that was put on the
/// work list before, earns a warning and is not followed. An edge that cannot
/// be read ends the node.
pub open spec fn edges_from(blob: Seq<u8>, prefix: Seq<u8>, pos: int, k: int, w: TrieWalk) -> TrieWalk
    decreases k,
{
    if k <= 0 {
        w
    } else if !cstr_terminated(blob, pos) {
        TrieWalk { warnings: w.warnings.push(Warning::ExportBadPrefix), ..w }
    } else {
        match leb_at(blob, nul_from(blob, pos) + 1, false) {
            None => TrieWalk { warnings: w.warnings.push(Warning::BadLeb128), ..w },
            Some((target, next)) => edges_from(
                blob,
                prefix,
                next,
                k - 1,
                if target >= w.seen.len() {
                    TrieWalk { warnings: w.warnings.push(Warning::ExportBadLimbOffset), ..w }
                } else if w.seen[target as int] {
                    TrieWalk { warnings: w.warnings.push(Warning::ExportOffsetSeen), ..w }
                } else {
                    TrieWalk {
                        work: w.work.push((target as usize, prefix + cstr_at(blob, pos))),
                        seen: w.seen.update(target as int, true),
                        ..w
                    }
                },
            ),
        }
    }
}

/// The walk after the last node of the work list was visited.
pub open spec fn node_visited(blob: Seq<u8>, base: u64, w: TrieWalk) -> TrieWalk
    recommends
        w.work.len() > 0,
{
    let (offset, prefix) = w.work.last();
    let t = terminal_read(blob, base, offset, prefix, w.warnings);
    let w1 = TrieWalk {
        work: w.work.drop_last(),
        out: match t.entry {
            Some(e) => w.out.push(e),
            None => w.out,
        },
        visited: w.visited.push(offset),
        warnings: t.warnings,
        ..w
    };
    match t.edges_at {
        None => w1,
        Some(at) => if at >= blob.len() {
            TrieWalk { warnings: w1.warnings.push(Warning::ExportNoEdgeCount), ..w1 }
        } else {
            edges_from(blob, prefix, at + 1, blob[at] as int, w1)
        },
    }
}

/// The number of offsets not yet seen.
pub open spec fn unseen(seen: Seq<bool>) -> nat
    decreases seen.len(),
{
    if seen.len() == 0 {
        0
    } else {
        unseen(seen.drop_last()) + (if seen.last() {
            0nat
        } else {
            1nat
        })
    }
}

pub proof fn lemma_unseen_update(seen: Seq<bool>, i: int)
    requires
        0 <= i < seen.len(),
        !seen[i],
    ensures
        unseen(seen.update(i, true)) + 1 == unseen(seen),
    decreases seen.len(),
{
    let s2 = seen.update(i, true);
    if i == seen.len() - 1 {
        assert(s2.drop_last() =~= seen.drop_last());
    } else {
        assert(s2.drop_last() =~= seen.drop_last().update(i, true));
        lemma_unseen_update(seen.drop_last(), i);
    }
}

/// Reading edges never changes the sum of the nodes to visit and the
/// offsets not yet seen.
#[verifier::rlimit(50)]
pub proof fn lemma_edges_measure(blob: Seq<u8>, prefix: Seq<u8>, pos: int, k: int, w: TrieWalk)
    ensures
        ({
            let r = edges_from(blob, prefix, pos, k, w);
            r.work.len() + unseen(r.seen) == w.work.len() + unseen(w.seen)
        }),
    decreases k,
{
    if k > 0 && cstr_terminated(blob, pos) {
        match leb_at(blob, nul_from(blob, pos) + 1, false) {
            None => {},
            Some((target, next)) => {
                let w2 = if target >= w.seen.len() {
                    TrieWalk { warnings: w.warnings.push(Warning::ExportBadLimbOffset), ..w }
                } else if w.seen[target as int] {
                    TrieWalk { warnings: w.warnings.push(Warning::ExportOffsetSeen), ..w }
                } else {
                    TrieWalk {
                        work: w.work.push((target as usize, prefix + cstr_at(blob, pos))),
                        seen: w.seen.update(target as int, true),
                        ..w
                    }
                };
                if target < w.seen.len() && !w.seen[target as int] {
                    lemma_unseen_update(w.seen, target as int);
                }
                lemma_edges_measure(blob, prefix, next, k - 1, w2);
            },
        }
    }
}

/// A visit takes one node off the work list for good.
#[verifier::rlimit(50)]
pub proof fn lemma_node_measure(blob: Seq<u8>, base: u64, w: TrieWalk)
    requires
        w.work.len() > 0,
    ensures
        ({
            let r = node_visited(blob, base, w);
            r.work.len() + unseen(r.seen) + 1 == w.work.len() + unseen(w.seen)
        }),
{
    let (offset, prefix) = w.work.last();
    let t = terminal_read(blob, base, offset, prefix, w.warnings);
    let w1 = TrieWalk {
        work: w.work.drop_last(),
        out: match t.entry {
            Some(e) => w.out.push(e),
            None => w.out,
        },
        visited: w.visited.push(offset),
        warnings: t.warnings,
        ..w
    };
    match t.edges_at {
        None => {},
        Some(at) => {
            if at < blob.len() {
                lemma_edges_measure(blob, prefix, at + 1, blob[at] as int, w1);
            }
        },
    }
}

/// The walk when it is carried on until no node is left to visit.
pub open spec fn walk_from(blob: Seq<u8>, base: u64, w: TrieWalk) -> TrieWalk
    decreases w.work.len() + unseen(w.seen),
{
    if w.work.len() == 0 {
        w
    } else {
        proof {
            lemma_node_measure(blob, base, w);
        }
        walk_from(blob, base, node_visited(blob, base, w))
    }
}

/// The walk over a whole trie. It starts at the node at offset 0, which
/// counts as seen. An empty trie holds nothing, and without a base address
/// nothing can be read.
pub open spec fn export_walk(blob: Seq<u8>, dyld_base: Option<u64>, warnings: Seq<Warning>) -> TrieWalk {
    let start = TrieWalk {
        work: Seq::empty(),
        seen: Seq::empty(),
        out: Seq::empty(),
        visited: Seq::empty(),
        warnings,
    };
    if blob.len() == 0 {
        start
    } else {
        match dyld_base {
            None => TrieWalk { warnings: warnings.push(Warning::ExportNoBase), ..start },
            Some(base) => walk_from(
                blob,
                base,
                TrieWalk {
                    work: seq![(0usize, Seq::<u8>::empty())],
                    seen: Seq::new(blob.len() + 1, |i: int| i == 0),
                    ..start
                },
            ),
        }
    }
}

/// What must hold of a walk for no node to be visited twice: the nodes on
/// the work list and those visited are all different, and all marked as
/// seen.
pub open spec fn walk_wf(w: TrieWalk) -> bool {
    &&& w.seen.len() <= usize::MAX + 1
    &&& forall|i: int|
        0 <= i < w.work.len() ==> (#[trigger] w.work[i]).0 < w.seen.len() && w.seen[w.work[i].0 as int]
    &&& forall|i: int, j: int|
        0 <= i < j < w.work.len() ==> (#[trigger] w.work[i]).0 != (#[trigger] w.work[j]).0
    &&& forall|i: int|
        0 <= i < w.visited.len() ==> (#[trigger] w.visited[i]) < w.seen.len()
            && w.seen[w.visited[i] as int]
    &&& forall|i: int, j: int|
        0 <= i < j < w.visited.len() ==> (#[trigger] w.visited[i]) != (#[trigger] w.visited[j])
    &&& forall|i: int, j: int|
        0 <= i < w.work.len() && 0 <= j < w.visited.len() ==> (#[trigger] w.work[i]).0 != (
        #[trigger] w.visited[j])
}

#[verifier::rlimit(50)]
proof fn lemma_edges_wf(blob: Seq<u8>, prefix: Seq<u8>, pos: int, k: int, w: TrieWalk)
    requires
        walk_wf(w),
    ensures
        walk_wf(edges_from(blob, prefix, pos, k, w)),
        edges_from(blob, prefix, pos, k, w).visited == w.visited,
        edges_from(blob, prefix, pos, k, w).seen.len() == w.seen.len(),
    decreases k,
{
    if k > 0 && cstr_terminated(blob, pos) {
        match leb_at(blob, nul_from(blob, pos) + 1, false) {
            None => {},
            Some((target, next)) => {
                let w2 = if target >= w.seen.len() {
                    TrieWalk { warnings: w.warnings.push(Warning::ExportBadLimbOffset), ..w }
                } else if w.seen[target as int] {
                    TrieWalk { warnings: w.warnings.push(Warning::ExportOffsetSeen), ..w }
                } else {
                    TrieWalk {
                        work: w.work.push((target as usize, prefix + cstr_at(blob, pos))),
                        seen: w.seen.update(target as int, true),
                        ..w
                    }
                };
                assert(walk_wf(w2));
                lemma_edges_wf(blob, prefix, next, k - 1, w2);
            },
        }
    }
}

#[verifier::rlimit(50)]
proof fn lemma_node_wf(blob: Seq<u8>, base: u64, w: TrieWalk)
    requires
        walk_wf(w),
        w.work.len() > 0,
    ensures
        walk_wf(node_visited(blob, base, w)),
{
    let (offset, prefix) = w.work.last();
    let t = terminal_read(blob, base, offset, prefix, w.warnings);
    let w1 = TrieWalk {
        work: w.work.drop_last(),
        out: match t.entry {
            Some(e) => w.out.push(e),
            None => w.out,
        },
        visited: w.visited.push(offset),
        warnings: t.warnings,
        ..w
    };
    assert(w.work[w.work.len() - 1].0 == offset);
    assert(walk_wf(w1));
    match t.edges_at {
        None => {},
        Some(at) => {
            if at < blob.len() {
                lemma_edges_wf(blob, prefix, at + 1, blob[at] as int, w1);
            }
        },
    }
}

proof fn lemma_walk_wf(blob: Seq<u8>, base: u64, w: TrieWalk)
    requires
        walk_wf(w),
    ensures
        walk_wf(walk_from(blob, base, w)),
    decreases w.work.len() + unseen(w.seen),
{
    if w.work.len() > 0 {
        lemma_node_measure(blob, base, w);
        lemma_node_wf(blob, base, w);
        lemma_walk_wf(blob, base, node_visited(blob, base, w));
    }
}

/// The walk over a trie visits no offset twice, whatever the trie holds: an
/// edge that leads back to a node reached before is not followed.
pub proof fn lemma_export_walk_visits_once(
    blob: Seq<u8>,
    dyld_base: Option<u64>,
    warnings: Seq<Warning>,
)
    requires
        blob.len() <= usize::MAX,
    ensures
        forall|i: int, j: int|
            0 <= i < j < export_walk(blob, dyld_base, warnings).visited.len() ==> export_walk(
                blob,
                dyld_base,
                warnings,
            ).visited[i] != export_walk(blob, dyld_base, warnings).visited[j],
{
    if blob.len() > 0 && dyld_base is Some {
        let start = TrieWalk {
            work: seq![(0usize, Seq::<u8>::empty())],
            seen: Seq::new(blob.len() + 1, |i: int| i == 0),
            out: Seq::empty(),
            visited: Seq::empty(),
            warnings,
        };
        assert(walk_wf(start));
        lemma_walk_wf(blob, dyld_base->Some_0, start);
    }
}

fn warn_skip(warnings: &mut Vec<Warning>, x: Warning) -> (r: (Option<ExportEntry>, Option<usize>))
    ensures
        final(warnings)@ == old(warnings)@.push(x),
        r.0 is None,
        r.1 is None,
{
    warnings.push(x);
    (None, None)
}

/// Whether what was read of a terminal part is what the trie holds.
pub open spec fn terminal_matches(r: (Option<ExportEntry>, Option<usize>), t: TerminalRead) -> bool {
    &&& match t.entry {
        Some(e) => r.0 is Some && r.0->Some_0@ == e,
        None => r.0 is None,
    }
    &&& match t.edges_at {
        Some(at) => r.1 is Some && r.1->Some_0 as int == at,
        None => r.1 is None,
    }
}

#[verifier::rlimit(50)]
fn read_reexport(
    t: &[u8],
    offset: usize,
    prefix: &Vec<u8>,
    flags: u32,
    addr: u64,
    resolver: Option<u64>,
    p: usize,
    warnings: &mut Vec<Warning>,
) -> (r: (Option<ExportEntry>, Option<usize>))
    requires
        p <= t@.len(),
    ensures
        terminal_matches(
            r,
            reexport_read(t@, offset, prefix@, flags, addr, resolver, p as int, old(warnings)@),
        ),
        final(warnings)@ == reexport_read(
            t@,
            offset,
            prefix@,
            flags,
            addr,
            resolver,
            p as int,
            old(warnings)@,
        ).warnings,
{
    assert(t@.len() == t.len());
    let mut end = p;
    let mut reexport: Option<(u64, Vec<u8>)> = None;
    if flags & EXPORT_SYMBOL_FLAGS_REEXPORT != 0 {
        if resolver.is_some() {
            return warn_skip(warnings, Warning::ExportResolverAndReexport);
        }
        match read_leb128(t, p, false) {
            None => {
                return warn_skip(warnings, Warning::BadLeb128);
            },
            Some((ord, at2)) => {
                let n = find_nul(t, at2);
                if n >= t.len() {
                    return warn_skip(warnings, Warning::ExportBadReexportName);
                }
                reexport = Some((ord, copy_range(t, at2, n)));
                end = n + 1;
            },
        }
    }
    if end < t.len() {
        warnings.push(Warning::ExportExcessTerminalData);
    }
    let entry = ExportEntry {
        name: copy_range(prefix.as_slice(), 0, prefix.len()),
        addr,
        flags,
        resolver,
        reexport,
        offset,
    };
    assert(entry.name@ =~= prefix@);
    (Some(entry), Some(t.len()))
}

#[verifier::rlimit(50)]
fn read_payload(
    t: &[u8],
    base: u64,
    offset: usize,
    prefix: &Vec<u8>,
    p: usize,
    warnings: &mut Vec<Warning>,
) -> (r: (Option<ExportEntry>, Option<usize>))
    ensures
        terminal_matches(r, payload_read(t@, base, offset, prefix@, p as int, old(warnings)@)),
        final(warnings)@ == payload_read(
            t@,
            base,
            offset,
            prefix@,
            p as int,
            old(warnings)@,
        ).warnings,
{
    match read_leb128(t, p, false) {
        None => warn_skip(warnings, Warning::BadLeb128),
        Some((f, at2)) => {
            if f > 0xffff_ffff {
                return warn_skip(warnings, Warning::ExportTooManyFlags);
            }
            let flags = f as u32;
            let kind = flags & EXPORT_SYMBOL_FLAGS_KIND_MASK;
            if kind == 3 {
                warnings.push(Warning::ExportKindThree);
            }
            if flags > 0x1f {
                warnings.push(Warning::ExportUnknownFlags);
            }
            match read_leb128(t, at2, false) {
                None => warn_skip(warnings, Warning::BadLeb128),
                Some((a, at3)) => {
                    let start: u64 = if kind == EXPORT_SYMBOL_FLAGS_KIND_ABSOLUTE {
                        0
                    } else {
                        base
                    };
                    let addr = start.wrapping_add(a);
                    if flags & EXPORT_SYMBOL_FLAGS_STUB_AND_RESOLVER != 0 {
                        match read_leb128(t, at3, false) {
                            None => warn_skip(warnings, Warning::BadLeb128),
                            Some((r, at4)) => read_reexport(
                                t,
                                offset,
                                prefix,
                                flags,
                                addr,
                                Some(base.wrapping_add(r)),
                                at4,
                                warnings,
                            ),
                        }
                    } else {
                        read_reexport(t, offset, prefix, flags, addr, None, at3, warnings)
                    }
                },
            }
        },
    }
}

#[verifier::rlimit(50)]
fn read_terminal(
    blob: &[u8],
    base: u64,
    offset: usize,
    prefix: &Vec<u8>,
    warnings: &mut Vec<Warning>,
) -> (r: (Option<ExportEntry>, Option<usize>))
    ensures
        terminal_matches(r, terminal_read(blob@, base, offset, prefix@, old(warnings)@)),
        final(warnings)@ == terminal_read(blob@, base, offset, prefix@, old(warnings)@).warnings,
        r.1 is Some ==> r.1->Some_0 <= blob@.len(),
{
    assert(blob@.len() == blob.len());
    match read_leb128(blob, offset, false) {
        None => warn_skip(warnings, Warning::BadLeb128),
        Some((size, p)) => {
            if size > (blob.len() - p) as u64 {
                warn_skip(warnings, Warning::ExportTerminalTooBig)
            } else if size == 0 {
                (None, Some(p))
            } else {
                read_payload(
                    vstd::slice::slice_subrange(blob, 0, p + size as usize),
                    base,
                    offset,
                    prefix,
                    p,
                    warnings,
                )
            }
        },
    }
}

/// What the walk over an export trie gives back.
pub struct ExportOutcome {
    /// The exports, in the order in which their nodes were visited.
    pub entries: Vec<ExportEntry>,
    /// The offsets of the nodes visited, in order.
    pub visited: Vec<usize>,
}

fn joined(prefix: &Vec<u8>, label: &[u8]) -> (r: Vec<u8>)
    ensures
        r@ == prefix@ + label@,
{
    let mut r = copy_range(prefix.as_slice(), 0, prefix.len());
    assert(r@ =~= prefix@);
    append_bytes(&mut r, label);
    r
}

proof fn lemma_work_views_push(s: Seq<(usize, Vec<u8>)>, x: (usize, Vec<u8>))
    ensures
        work_views(s.push(x)) == work_views(s).push((x.0, x.1@)),
{
    assert(work_views(s.push(x)) =~= work_views(s).push((x.0, x.1@)));
}

impl MachO {
    /// Walks the export trie `dyld_export`.
    #[verifier::rlimit(50)]
    pub fn parse_dyld_export(&self, dyld_export: &[u8], warnings: &mut Vec<Warning>) -> (r:
        ExportOutcome)
        ensures
            ({
                let w = export_walk(dyld_export@, self.dyld_base, old(warnings)@);
                &&& export_views(r.entries@) == w.out
                &&& r.visited@ == w.visited
                &&& final(warnings)@ == w.warnings
            }),
            forall|i: int, j: int|
                0 <= i < j < r.visited@.len() ==> r.visited@[i] != r.visited@[j],
    {
        let blob = dyld_export;
        assert(blob@.len() == blob.len());
        let ghost target = export_walk(blob@, self.dyld_base, warnings@);
        proof {
            lemma_export_walk_visits_once(blob@, self.dyld_base, warnings@);
        }
        let mut out: Vec<ExportEntry> = Vec::new();
        let mut visited: Vec<usize> = Vec::new();
        assert(export_views(out@) =~= Seq::empty());
        if blob.len() == 0 {
            return ExportOutcome { entries: out, visited };
        }
        let base = match self.dyld_base {
            Some(b) => b,
            None => {
                warnings.push(Warning::ExportNoBase);
                return ExportOutcome { entries: out, visited };
            },
        };
        let mut seen: Vec<bool> = Vec::new();
        seen.push(true);
        let mut i: usize = 0;
        while i < blob.len()
            invariant
                i <= blob@.len(),
                blob@.len() == blob.len(),
                seen@.len() == i + 1,
                forall|j: int| 0 <= j <= i ==> seen@[j] == (j == 0),
            decreases blob@.len() - i,
        {
            seen.push(false);
            i += 1;
        }
        let mut work: Vec<(usize, Vec<u8>)> = Vec::new();
        work.push((0, Vec::new()));
        assert(work_views(work@) =~= seq![(0usize, Seq::<u8>::empty())]);
        assert(seen@ =~= Seq::new(blob@.len() + 1, |i: int| i == 0));
        loop
            invariant_except_break
                walk_from(
                    blob@,
                    base,
                    TrieWalk {
                        work: work_views(work@),
                        seen: seen@,
                        out: export_views(out@),
                        visited: visited@,
                        warnings: warnings@,
                    },
                ) == target,
            invariant
                blob@.len() == blob.len(),
                seen@.len() == blob@.len() + 1,
                forall|i: int| 0 <= i < work@.len() ==> (#[trigger] work@[i]).0 <= blob@.len(),
            ensures
                export_views(out@) == target.out,
                visited@ == target.visited,
                warnings@ == target.warnings,
            decreases work@.len() + unseen(seen@),
        {
            let ghost cur = TrieWalk {
                work: work_views(work@),
                seen: seen@,
                out: export_views(out@),
                visited: visited@,
                warnings: warnings@,
            };
            let ghost work0 = work@;
            let (offset, prefix) = match work.pop() {
                Some(t) => t,
                None => {
                    break ;
                },
            };
            proof {
                lemma_node_measure(blob@, base, cur);
                assert(cur.work.last() == (offset, prefix@));
                assert(work_views(work@) =~= cur.work.drop_last());
            }
            visited.push(offset);
            let (entry, edges_at) = read_terminal(blob, base, offset, &prefix, warnings);
            match entry {
                Some(e) => {
                    assert(export_views(out@.push(e)) =~= export_views(out@).push(e@));
                    out.push(e);
                },
                None => {},
            }
            match edges_at {
                None => {},
                Some(at) => {
                    if at >= blob.len() {
                        warnings.push(Warning::ExportNoEdgeCount);
                    } else {
                        let count = blob[at];
                        let mut pos: usize = at + 1;
                        let mut k: u8 = count;
                        let ghost edges_target = node_visited(blob@, base, cur);
                        while k > 0
                            invariant_except_break
                                pos <= blob@.len(),
                                edges_from(
                                    blob@,
                                    prefix@,
                                    pos as int,
                                    k as int,
                                    TrieWalk {
                                        work: work_views(work@),
                                        seen: seen@,
                                        out: export_views(out@),
                                        visited: visited@,
                                        warnings: warnings@,
                                    },
                                ) == edges_target,
                            invariant
                                blob@.len() == blob.len(),
                                seen@.len() == blob@.len() + 1,
                                forall|i: int|
                                    0 <= i < work@.len() ==> (#[trigger] work@[i]).0 <= blob@.len(),
                            ensures
                                (TrieWalk {
                                    work: work_views(work@),
                                    seen: seen@,
                                    out: export_views(out@),
                                    visited: visited@,
                                    warnings: warnings@,
                                }) == edges_target,
                            decreases k,
                        {
                            let n = find_nul(blob, pos);
                            if n >= blob.len() {
                                warnings.push(Warning::ExportBadPrefix);
                                break ;
                            }
                            match read_leb128(blob, n + 1, false) {
                                None => {
                                    warnings.push(Warning::BadLeb128);
                                    break ;
                                },
                                Some((target_off, next)) => {
                                    if target_off > blob.len() as u64 {
                                        warnings.push(Warning::ExportBadLimbOffset);
                                    } else if seen[target_off as usize] {
                                        warnings.push(Warning::ExportOffsetSeen);
                                    } else {
                                        seen.set(target_off as usize, true);
                                        let label = vstd::slice::slice_subrange(blob, pos, n);
                                        let name = joined(&prefix, label);
                                        proof {
                                            lemma_work_views_push(
                                                work@,
                                                (target_off as usize, name),
                                            );
                                        }
                                        work.push((target_off as usize, name));
                                    }
                                    pos = next;
                                    k = k - 1;
                                },
                            }
                        }
                    }
                },
            }
        }
        ExportOutcome { entries: out, visited }
    }
}

} // verus!
