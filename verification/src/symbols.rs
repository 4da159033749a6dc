//! The symbols of an image, by where they are listed: the symbol table, the
//! bind streams, or the export trie.

use vstd::prelude::*;
use crate::bind::{ParseDyldBindState, WhichBind, bind_run, symbol_in_stream};
use crate::defs::{
    EXPORT_SYMBOL_FLAGS_KIND_ABSOLUTE, EXPORT_SYMBOL_FLAGS_KIND_MASK,
    EXPORT_SYMBOL_FLAGS_KIND_THREAD_LOCAL, EXPORT_SYMBOL_FLAGS_WEAK_DEFINITION, MH_OBJECT,
};
use crate::diag::Warning;
use crate::exec::{Symbol, SymbolSource, SymbolValue, SymbolValueView, SymbolView, symbol_views};
use crate::export::{ExportEntryView, export_views, export_walk};
use crate::image::{
    DYLD_BIND, DYLD_EXPORT, DYLD_LAZY_BIND, DYLD_WEAK_BIND, MachO, MachOView, STRTAB, SYMTAB,
    nlist_size_of,
};
use crate::symtab::symbols_from;
use crate::util::copy_range;

verus! {

/// The symbol that a bind asks for.
pub open spec fn imported_symbol(stream: Seq<u8>, e: ParseDyldBindState, weak: bool) -> SymbolView
    recommends
        e.symbol is Some,
{
    let (start, len) = e.symbol->Some_0;
    SymbolView {
        name: stream.subrange(start as int, start + len),
        is_public: true,
        is_weak: weak,
        val: SymbolValueView::Undefined(e.source_dylib),
        size: None,
        private: 0,
    }
}

/// The symbols of the binds from the `i`-th on, added to `out`: one for each
/// bind that names a symbol and is the first of its symbol.
pub open spec fn imported_from(
    stream: Seq<u8>,
    events: Seq<ParseDyldBindState>,
    weak: bool,
    i: int,
    out: Seq<SymbolView>,
) -> Seq<SymbolView>
    decreases events.len() - i,
{
    if i < 0 || i >= events.len() {
        out
    } else {
        imported_from(
            stream,
            events,
            weak,
            i + 1,
            if events[i].already_bound_this_symbol || events[i].symbol is None {
                out
            } else {
                out.push(imported_symbol(stream, events[i], weak))
            },
        )
    }
}

/// The symbols that one bind stream asks for, added to `out`, and the
/// warnings that playing the stream gives, added to `warnings`.
pub open spec fn imported_of_stream(
    m: MachOView,
    stream: Seq<u8>,
    which: WhichBind,
    out: Seq<SymbolView>,
    warnings: Seq<Warning>,
) -> (Seq<SymbolView>, Seq<Warning>) {
    let run = bind_run(m.is64, m.segments, m.load_dylib.len(), stream, which, warnings);
    (imported_from(stream, run.events, which == WhichBind::WeakBind, 0, out), run.warnings)
}

/// The value of an exported symbol.
pub open spec fn exported_value(e: ExportEntryView) -> SymbolValueView {
    let kind = e.flags & EXPORT_SYMBOL_FLAGS_KIND_MASK;
    match e.reexport {
        Some((_, name)) => SymbolValueView::ReExport(name),
        None => match e.resolver {
            Some(resolver) => SymbolValueView::Resolver(resolver, Some(e.addr)),
            None => if kind == EXPORT_SYMBOL_FLAGS_KIND_THREAD_LOCAL {
                SymbolValueView::ThreadLocal(e.addr)
            } else if kind == EXPORT_SYMBOL_FLAGS_KIND_ABSOLUTE {
                SymbolValueView::Abs(e.addr)
            } else {
                SymbolValueView::Addr(e.addr)
            },
        },
    }
}

/// The symbol that an export stands for.
pub open spec fn exported_symbol(e: ExportEntryView) -> SymbolView {
    SymbolView {
        name: e.name,
        is_public: true,
        is_weak: e.flags & EXPORT_SYMBOL_FLAGS_WEAK_DEFINITION != 0,
        val: exported_value(e),
        size: None,
        private: e.offset,
    }
}

/// The symbols that a list of exports stands for.
pub open spec fn exported_symbols(entries: Seq<ExportEntryView>) -> Seq<SymbolView> {
    entries.map_values(|e: ExportEntryView| exported_symbol(e))
}

/// The symbols of an image from one source, and the warnings that reading
/// them gives, added to `warnings`.
///
/// All: the records that a shared cache keeps for the image, if any, and
/// then those of the image's own symbol table, without the names that the
/// cache removed. Imported: what the three bind streams ask for, in the order
/// bind, weak bind, lazy bind. Exported: what the export trie holds.
pub open spec fn symbol_list(m: MachOView, source: SymbolSource, warnings: Seq<Warning>) -> (
    Seq<SymbolView>,
    Seq<Warning>,
) {
    let is_obj = m.mh.filetype == MH_OBJECT;
    match source {
        SymbolSource::All => {
            let first = match m.dsc_tabs {
                Some(t) => symbols_from(
                    t.symtab,
                    t.strtab,
                    m.endian,
                    m.is64,
                    is_obj,
                    false,
                    t.start as usize,
                    t.count as usize,
                    0,
                    Seq::empty(),
                    warnings,
                ),
                None => (Seq::empty(), warnings),
            };
            symbols_from(
                m.linkedit[SYMTAB as int],
                m.linkedit[STRTAB as int],
                m.endian,
                m.is64,
                is_obj,
                m.dsc_tabs is Some,
                0,
                (m.linkedit[SYMTAB as int].len() / nlist_size_of(m.is64) as nat) as usize,
                0,
                first.0,
                first.1,
            )
        },
        SymbolSource::Imported => {
            let a = imported_of_stream(
                m,
                m.linkedit[DYLD_BIND as int],
                WhichBind::Bind,
                Seq::empty(),
                warnings,
            );
            let b = imported_of_stream(
                m,
                m.linkedit[DYLD_WEAK_BIND as int],
                WhichBind::WeakBind,
                a.0,
                a.1,
            );
            imported_of_stream(m, m.linkedit[DYLD_LAZY_BIND as int], WhichBind::LazyBind, b.0, b.1)
        },
        SymbolSource::Exported => {
            let w = export_walk(m.linkedit[DYLD_EXPORT as int], m.dyld_base, warnings);
            (exported_symbols(w.out), w.warnings)
        },
    }
}

impl MachO {
    /// Adds to `out` the symbols that one bind stream asks for.
    #[verifier::rlimit(50)]
    fn push_imported(&self, which_region: usize, which: WhichBind, out: &mut Vec<Symbol>, warnings: &mut Vec<Warning>)
        requires
            self.wf(),
            which_region < crate::image::NUM_LINKEDIT,
        ensures
            (symbol_views(final(out)@), final(warnings)@) == imported_of_stream(
                self@,
                self@.linkedit[which_region as int],
                which,
                symbol_views(old(out)@),
                old(warnings)@,
            ),
    {
        let stream = self.region(which_region);
        let weak = match which {
            WhichBind::WeakBind => true,
            _ => false,
        };
        let outcome = self.parse_dyld_bind(stream, which, warnings);
        assert(stream@.len() == stream.len());
        let ghost target = imported_from(stream@, outcome.events@, weak, 0, symbol_views(out@));
        let mut i: usize = 0;
        while i < outcome.events.len()
            invariant
                i <= outcome.events@.len(),
                imported_from(stream@, outcome.events@, weak, i as int, symbol_views(out@))
                    == target,
                stream@.len() == stream.len(),
                forall|j: int|
                    0 <= j < outcome.events@.len() ==> symbol_in_stream(
                        #[trigger] outcome.events@[j],
                        stream@.len(),
                    ),
            decreases outcome.events@.len() - i,
        {
            let e = outcome.events[i];
            if !e.already_bound_this_symbol {
                if let Some((start, len)) = e.symbol {
                    assert(symbol_in_stream(outcome.events@[i as int], stream@.len()));
                    let sym = Symbol {
                        name: copy_range(stream, start, start + len),
                        is_public: true,
                        is_weak: weak,
                        val: SymbolValue::Undefined(e.source_dylib),
                        size: None,
                        private: 0,
                    };
                    assert(sym@ == imported_symbol(stream@, e, weak));
                    assert(symbol_views(out@.push(sym)) =~= symbol_views(out@).push(sym@));
                    out.push(sym);
                }
            }
            i += 1;
        }
    }

    /// The symbols of the image from one source.
    #[verifier::rlimit(50)]
    pub fn get_symbol_list(&self, source: SymbolSource, warnings: &mut Vec<Warning>) -> (r: Vec<
        Symbol,
    >)
        requires
            self.wf(),
        ensures
            (symbol_views(r@), final(warnings)@) == symbol_list(self@, source, old(warnings)@),
    {
        let mut out: Vec<Symbol> = Vec::new();
        assert(symbol_views(out@) =~= Seq::empty());
        match source {
            SymbolSource::All => {
                let mut skip_redacted = false;
                if let Some(t) = &self.dsc_tabs {
                    self.push_nlist_symbols(
                        t.symtab.as_slice(),
                        t.strtab.as_slice(),
                        t.start as usize,
                        t.count as usize,
                        false,
                        &mut out,
                        warnings,
                    );
                    skip_redacted = true;
                }
                let symtab = self.region(SYMTAB);
                let strtab = self.region(STRTAB);
                assert(symtab@.len() == symtab.len());
                let count = symtab.len() / self.nlist_size();
                self.push_nlist_symbols(symtab, strtab, 0, count, skip_redacted, &mut out, warnings);
            },
            SymbolSource::Imported => {
                self.push_imported(DYLD_BIND, WhichBind::Bind, &mut out, warnings);
                self.push_imported(DYLD_WEAK_BIND, WhichBind::WeakBind, &mut out, warnings);
                self.push_imported(DYLD_LAZY_BIND, WhichBind::LazyBind, &mut out, warnings);
            },
            SymbolSource::Exported => {
                let outcome = self.parse_dyld_export(self.region(DYLD_EXPORT), warnings);
                let ghost entries = export_views(outcome.entries@);
                let mut i: usize = 0;
                while i < outcome.entries.len()
                    invariant
                        i <= outcome.entries@.len(),
                        entries == export_views(outcome.entries@),
                        symbol_views(out@) == exported_symbols(entries.subrange(0, i as int)),
                    decreases outcome.entries@.len() - i,
                {
                    let e = &outcome.entries[i];
                    let kind = e.flags & EXPORT_SYMBOL_FLAGS_KIND_MASK;
                    let val = match &e.reexport {
                        Some((_, name)) => SymbolValue::ReExport(
                            copy_range(name.as_slice(), 0, name.len()),
                        ),
                        None => match e.resolver {
                            Some(resolver) => SymbolValue::Resolver(resolver, Some(e.addr)),
                            None => if kind == EXPORT_SYMBOL_FLAGS_KIND_THREAD_LOCAL {
                                SymbolValue::ThreadLocal(e.addr)
                            } else if kind == EXPORT_SYMBOL_FLAGS_KIND_ABSOLUTE {
                                SymbolValue::Abs(e.addr)
                            } else {
                                SymbolValue::Addr(e.addr)
                            },
                        },
                    };
                    let sym = Symbol {
                        name: copy_range(e.name.as_slice(), 0, e.name.len()),
                        is_public: true,
                        is_weak: e.flags & EXPORT_SYMBOL_FLAGS_WEAK_DEFINITION != 0,
                        val,
                        size: None,
                        private: e.offset,
                    };
                    proof {
                        assert(sym.name@ =~= e.name@);
                        if e.reexport is Some {
                            assert(sym.val->ReExport_0@ =~= e.reexport->Some_0.1@);
                        }
                        assert(entries[i as int] == e@);
                        assert(sym@ == exported_symbol(entries[i as int]));
                        assert(exported_symbols(entries.subrange(0, i + 1)) =~= exported_symbols(
                            entries.subrange(0, i as int),
                        ).push(exported_symbol(entries[i as int])));
                        assert(symbol_views(out@.push(sym)) =~= symbol_views(out@).push(sym@));
                    }
                    out.push(sym);
                    i += 1;
                }
                assert(entries.subrange(0, i as int) =~= entries);
            },
        }
        out
    }
}

} // verus!
