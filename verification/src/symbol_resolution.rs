//! Finding the definitions of symbols, and the files that have to be loaded for them.
use crate::file_id::FileId;
use crate::hash_maps::NameMap;
use crate::internal_symbols;
use crate::internal_symbols::SymbolPlacement;
use crate::symbol_id::{SymbolId, SymbolIdRange};
use crate::take_cells;
use crate::take_cells::{atomic_take_is_taken, atomic_take_new, atomic_take_take};
use crate::value_flags::ValueFlags;
use vstd::prelude::*;

verus! {

/// Who can see a symbol.
#[derive(Clone, Copy, Debug, PartialEq, Eq, PartialOrd, Ord, Structural)]
pub enum Visibility {
    Default,
    /// Other files can see the symbol but not replace it.
    Protected,
    Hidden,
}

/// The name of a symbol. Names with versions are given as byte strings that no other version of the
/// name has.
#[derive(Clone, Copy, Debug)]
pub enum SymbolName<'data> {
    Unversioned(&'data [u8]),
    Versioned(&'data [u8]),
}

/// A reference that might stay undefined.
#[derive(Clone, Copy, Debug)]
pub struct UndefinedSymbol<'data> {
    /// If this file is loaded, it defines the symbol.
    pub ignore_if_loaded: Option<FileId>,
    pub name: SymbolName<'data>,
    pub symbol_id: SymbolId,
}

/// A symbol of an input file, and what a lookup of its name has found. Symbols that are not visible
/// by default do not find definitions in shared objects.
#[derive(Clone, Copy, Debug)]
pub struct LocalSymbol<'data> {
    pub name: SymbolName<'data>,
    pub is_local: bool,
    pub is_weak: bool,
    pub visibility: Visibility,
    pub found: Option<SymbolId>,
}

/// The file whose symbols are resolved.
#[derive(Clone, Copy, Debug)]
pub struct ResolvingFile {
    pub file_id: FileId,
    pub symbol_id_range: SymbolIdRange,
    pub is_dynamic: bool,
    /// The first symbol stands for no symbol.
    pub has_null_symbol: bool,
    /// The file holds intermediate code.
    pub from_ir: bool,
    /// Make sure that only global symbols are without a definition.
    pub check_globals: bool,
}

/// The files that define symbols.
pub struct SymbolFiles<'a> {
    /// The file of each symbol.
    pub file_ids: &'a Vec<FileId>,
    /// Whether that file is a shared object.
    pub is_dynamic: &'a Vec<bool>,
}

/// What resolving symbols has led to.
pub struct ResolutionState<'data> {
    /// What is known of each symbol.
    pub flags: Vec<ValueFlags>,
    /// The files that have to be loaded, in the order in which they were asked for.
    pub requests: Vec<FileId>,
    pub undefined: Vec<UndefinedSymbol<'data>>,
}

/// A symbol that is not global refers to a definition in another file.
#[derive(Clone, Copy, Debug, PartialEq, Eq, Structural)]
pub struct LocalUndefined;

/// The flags of a definition that a reference with the given visibility has found. A definition
/// that is hidden from other files is made local, and one that other files cannot replace is marked
/// as such unless it is theirs.
pub open spec fn with_visibility(flags: ValueFlags, visibility: Visibility) -> ValueFlags {
    match visibility {
        Visibility::Default => flags,
        Visibility::Hidden => ValueFlags {
            non_interposable: true,
            downgrade_to_local: true,
            ..flags
        },
        Visibility::Protected => if flags.dynamic {
            flags
        } else {
            ValueFlags { non_interposable: true, ..flags }
        },
    }
}

/// The flags of a definition that a reference with the given visibility has found.
pub fn apply_visibility(flags: ValueFlags, visibility: Visibility) -> (updated: ValueFlags)
    ensures
        updated == with_visibility(flags, visibility),
{
    let mut updated: ValueFlags = flags;
    match visibility {
        Visibility::Default => {},
        Visibility::Hidden => {
            updated.non_interposable = true;
            updated.downgrade_to_local = true;
        },
        Visibility::Protected => {
            if !updated.dynamic {
                updated.non_interposable = true;
            }
        },
    }
    updated
}

/// The flags of a definition after a reference to it.
pub open spec fn spec_referenced_flags(
    flags: ValueFlags,
    visibility: Visibility,
    from_ir: bool,
) -> ValueFlags {
    let seen = with_visibility(flags, visibility);
    if from_ir {
        seen
    } else {
        ValueFlags { has_non_ir_ref: true, ..seen }
    }
}

fn referenced_flags(flags: ValueFlags, visibility: Visibility, from_ir: bool) -> (updated:
    ValueFlags)
    ensures
        updated == spec_referenced_flags(flags, visibility, from_ir),
{
    let mut updated: ValueFlags = apply_visibility(flags, visibility);
    if !from_ir {
        updated.has_non_ir_ref = true;
    }
    updated
}

/// What resolving one symbol leads to: its definition, the flags of the definition, the file to
/// load, and whether the reference might stay undefined.
pub struct Resolved<'data> {
    pub definition: Option<SymbolId>,
    pub flags: ValueFlags,
    pub request: Option<FileId>,
    pub undefined: Option<UndefinedSymbol<'data>>,
}

impl<'a> SymbolFiles<'a> {
    pub open spec fn wf(&self) -> bool {
        self.file_ids@.len() == self.is_dynamic@.len()
    }

    pub open spec fn has(&self, id: SymbolId) -> bool {
        id.0 < self.file_ids@.len()
    }
}

/// What resolving one symbol leads to. A strong reference loads the file of its definition, except
/// that shared objects do not load other shared objects. A weak reference might stay undefined if
/// the file is not loaded for another reason.
pub open spec fn resolved<'a, 'data>(
    id: SymbolId,
    symbol: LocalSymbol<'data>,
    file: ResolvingFile,
    files: SymbolFiles<'a>,
    flags: ValueFlags,
) -> Resolved<'data> {
    match symbol.found {
        None => Resolved {
            definition: None,
            flags,
            request: None,
            undefined: Some(
                UndefinedSymbol { ignore_if_loaded: None, name: symbol.name, symbol_id: id },
            ),
        },
        Some(definition) => {
            let target = files.file_ids@[definition.0 as int];
            let strong_elsewhere = target != file.file_id && !symbol.is_weak;
            Resolved {
                definition: Some(definition),
                flags: spec_referenced_flags(flags, symbol.visibility, file.from_ir),
                request: if strong_elsewhere && !(file.is_dynamic
                    && files.is_dynamic@[definition.0 as int]) {
                    Some(target)
                } else {
                    None
                },
                undefined: if !strong_elsewhere && target.0 != 0 {
                    Some(
                        UndefinedSymbol {
                            ignore_if_loaded: Some(target),
                            name: symbol.name,
                            symbol_id: id,
                        },
                    )
                } else {
                    None
                },
            }
        },
    }
}

/// Resolves one symbol. `flags` are those of the definition that was found.
pub fn resolve_symbol<'a, 'data>(
    local_symbol_id: SymbolId,
    symbol: LocalSymbol<'data>,
    file: ResolvingFile,
    files: &SymbolFiles<'a>,
    flags: ValueFlags,
) -> (result: Result<Resolved<'data>, LocalUndefined>)
    requires
        files.wf(),
        symbol.found matches Some(id) ==> files.has(id),
    ensures
        result == (if file.check_globals && symbol.is_local {
            Err::<Resolved, LocalUndefined>(LocalUndefined)
        } else {
            Ok::<Resolved, LocalUndefined>(
                resolved(local_symbol_id, symbol, file, *files, flags),
            )
        }),
{
    if file.check_globals && symbol.is_local {
        return Err(LocalUndefined);
    }
    match symbol.found {
        None => Ok(
            Resolved {
                definition: None,
                flags,
                request: None,
                undefined: Some(
                    UndefinedSymbol {
                        ignore_if_loaded: None,
                        name: symbol.name,
                        symbol_id: local_symbol_id,
                    },
                ),
            },
        ),
        Some(definition) => {
            let updated: ValueFlags = referenced_flags(flags, symbol.visibility, file.from_ir);
            let index: usize = definition.as_usize();
            let target: FileId = files.file_ids[index];
            let mut request: Option<FileId> = None;
            let mut undefined: Option<UndefinedSymbol<'data>> = None;
            if target.0 != file.file_id.0 && !symbol.is_weak {
                if !file.is_dynamic || !files.is_dynamic[index] {
                    request = Some(target);
                }
            } else if target.0 != FileId::prelude().0 {
                undefined = Some(
                    UndefinedSymbol {
                        ignore_if_loaded: Some(target),
                        name: symbol.name,
                        symbol_id: local_symbol_id,
                    },
                );
            }
            Ok(Resolved { definition: Some(definition), flags: updated, request, undefined })
        },
    }
}

/// What is known after some symbols have been resolved.
pub ghost struct Progress<'data> {
    pub definitions: Seq<SymbolId>,
    pub flags: Seq<ValueFlags>,
    pub requests: Seq<FileId>,
    pub undefined: Seq<UndefinedSymbol<'data>>,
}

/// Whether a symbol is resolved: symbols that have a definition, the one that stands for no symbol,
/// and hidden symbols of shared objects are not.
pub open spec fn needs_resolving(
    definition: SymbolId,
    symbol: LocalSymbol,
    file: ResolvingFile,
    offset: int,
) -> bool {
    definition.0 == 0 && !(file.has_null_symbol && offset == 0) && !(file.is_dynamic
        && symbol.visibility is Hidden)
}

/// What is known after one more symbol has been resolved.
pub open spec fn progress_step<'a, 'data>(
    before: Progress<'data>,
    symbol: LocalSymbol<'data>,
    file: ResolvingFile,
    files: SymbolFiles<'a>,
    start: int,
    index: int,
) -> Progress<'data> {
    if !needs_resolving(before.definitions[index], symbol, file, start + index) {
        before
    } else {
        let flags = match symbol.found {
            Some(id) => before.flags[id.0 as int],
            None => ValueFlags::none(),
        };
        let after = resolved(
            file.symbol_id_range.id_at(start + index),
            symbol,
            file,
            files,
            flags,
        );
        Progress {
            definitions: match after.definition {
                Some(id) => before.definitions.update(index, id),
                None => before.definitions,
            },
            flags: match after.definition {
                Some(id) => before.flags.update(id.0 as int, after.flags),
                None => before.flags,
            },
            requests: match after.request {
                Some(id) => before.requests.push(id),
                None => before.requests,
            },
            undefined: match after.undefined {
                Some(symbol) => before.undefined.push(symbol),
                None => before.undefined,
            },
        }
    }
}

/// What is known after the first `count` symbols have been resolved. `None` if one of them is found
/// not to be global.
pub open spec fn progress_after<'a, 'data>(
    initial: Progress<'data>,
    symbols: Seq<LocalSymbol<'data>>,
    file: ResolvingFile,
    files: SymbolFiles<'a>,
    start: int,
    count: int,
) -> Option<Progress<'data>>
    decreases count,
{
    if count <= 0 {
        Some(initial)
    } else {
        match progress_after(initial, symbols, file, files, start, count - 1) {
            None => None,
            Some(before) => if needs_resolving(
                before.definitions[count - 1],
                symbols[count - 1],
                file,
                start + count - 1,
            ) && file.check_globals && symbols[count - 1].is_local {
                None
            } else {
                Some(
                    progress_step(before, symbols[count - 1], file, files, start, count - 1),
                )
            },
        }
    }
}

proof fn lemma_progress_none<'a, 'data>(
    initial: Progress<'data>,
    symbols: Seq<LocalSymbol<'data>>,
    file: ResolvingFile,
    files: SymbolFiles<'a>,
    start: int,
    count: int,
    all: int,
)
    requires
        0 <= count <= all,
        progress_after(initial, symbols, file, files, start, count) is None,
    ensures
        progress_after(initial, symbols, file, files, start, all) is None,
    decreases all - count,
{
    if count < all {
        lemma_progress_none(initial, symbols, file, files, start, count + 1, all);
    }
}

impl<'data> ResolutionState<'data> {
    /// What is known, together with the definitions of some symbols.
    pub open spec fn progress(&self, definitions: Seq<SymbolId>) -> Progress<'data> {
        Progress {
            definitions,
            flags: self.flags@,
            requests: self.requests@,
            undefined: self.undefined@,
        }
    }
}

/// Resolves the symbols of a file that follow the given one. `definitions` holds their definitions.
/// After an error, the symbols before the one that led to it have been resolved.
#[verifier::rlimit(30)]
pub fn resolve_symbols<'a, 'data>(
    symbols: &Vec<LocalSymbol<'data>>,
    file: ResolvingFile,
    files: &SymbolFiles<'a>,
    start_symbol_offset: usize,
    definitions: &mut Vec<SymbolId>,
    state: &mut ResolutionState<'data>,
) -> (result: Result<(), LocalUndefined>)
    requires
        files.wf(),
        file.symbol_id_range.wf(),
        symbols@.len() == old(definitions)@.len(),
        start_symbol_offset + symbols@.len() <= file.symbol_id_range.num_symbols,
        forall|i: int|
            0 <= i < symbols@.len() ==> ((#[trigger] symbols@[i]).found matches Some(id)
                ==> files.has(id) && id.0 < old(state).flags@.len()),
    ensures
        final(definitions)@.len() == old(definitions)@.len(),
        final(state).flags@.len() == old(state).flags@.len(),
        match progress_after(
            old(state).progress(old(definitions)@),
            symbols@,
            file,
            *files,
            start_symbol_offset as int,
            symbols@.len() as int,
        ) {
            Some(after) => result is Ok && final(state).progress(final(definitions)@) == after,
            None => result is Err && exists|i: int|
                0 <= i < symbols@.len() && #[trigger] progress_after(
                    old(state).progress(old(definitions)@),
                    symbols@,
                    file,
                    *files,
                    start_symbol_offset as int,
                    i,
                ) == Some(final(state).progress(final(definitions)@)),
        },
{
    let ghost initial = state.progress(definitions@);
    let count: usize = symbols.len();
    let mut i: usize = 0;
    while i < count
        invariant
            i <= count,
            count == symbols@.len(),
            files.wf(),
            file.symbol_id_range.wf(),
            definitions@.len() == symbols@.len(),
            symbols@.len() == old(definitions)@.len(),
            start_symbol_offset + symbols@.len() <= file.symbol_id_range.num_symbols,
            initial == old(state).progress(old(definitions)@),
            state.flags@.len() == old(state).flags@.len(),
            forall|i: int|
                0 <= i < symbols@.len() ==> ((#[trigger] symbols@[i]).found matches Some(id)
                    ==> files.has(id) && id.0 < state.flags@.len()),
            progress_after(
                initial,
                symbols@,
                file,
                *files,
                start_symbol_offset as int,
                i as int,
            ) == Some(state.progress(definitions@)),
        decreases count - i,
    {
        let symbol: LocalSymbol<'data> = symbols[i];
        assert(symbols@[i as int] == symbol);
        let ghost before = state.progress(definitions@);
        let hidden: bool = match symbol.visibility {
            Visibility::Hidden => true,
            _ => false,
        };
        if !(!definitions[i].is_undefined() || (file.has_null_symbol && start_symbol_offset + i
            == 0) || (file.is_dynamic && hidden)) {
            assert(needs_resolving(
                before.definitions[i as int],
                symbol,
                file,
                start_symbol_offset + i,
            ));
            let flags: ValueFlags = match symbol.found {
                Some(id) => state.flags[id.as_usize()],
                None => ValueFlags::empty(),
            };
            let local_symbol_id: SymbolId = file.symbol_id_range.offset_to_id(
                start_symbol_offset + i,
            );
            match resolve_symbol(local_symbol_id, symbol, file, files, flags) {
                Ok(outcome) => {
                    if let Some(id) = outcome.definition {
                        definitions.set(i, id);
                        state.flags.set(id.as_usize(), outcome.flags);
                    }
                    if let Some(request) = outcome.request {
                        state.requests.push(request);
                    }
                    if let Some(undefined) = outcome.undefined {
                        state.undefined.push(undefined);
                    }
                },
                Err(error) => {
                    proof {
                        lemma_progress_none(
                            initial,
                            symbols@,
                            file,
                            *files,
                            start_symbol_offset as int,
                            i + 1,
                            count as int,
                        );
                    }
                    return Err(error);
                },
            }
        }
        assert(state.progress(definitions@) == progress_step(
            before,
            symbol,
            file,
            *files,
            start_symbol_offset as int,
            i as int,
        ));
        i = i + 1;
    }
    Ok(())
}

/// How many symbols there are of each file of each group. Files that have been asked for have been
/// taken out.
pub struct PendingFiles {
    groups: Vec<Vec<atomic_take::AtomicTake<usize>>>,
}

impl PendingFiles {
    /// For each file of each group, the number of its symbols, or `None` if the file has been asked
    /// for.
    pub closed spec fn pending(&self, group: int, file: int) -> Option<usize> {
        if 0 <= group < self.groups@.len() && 0 <= file < self.groups@[group]@.len()
            && take_cells::take_contents(self.groups@[group]@[file]).len() > 0 {
            Some(take_cells::take_contents(self.groups@[group]@[file])[0])
        } else {
            None
        }
    }

    pub closed spec fn group_count(&self) -> nat {
        self.groups@.len()
    }

    /// No groups.
    pub fn new() -> (files: PendingFiles)
        ensures
            files.group_count() == 0,
            forall|group: int, file: int| (#[trigger] files.pending(group, file)) is None,
    {
        PendingFiles { groups: Vec::new() }
    }

    /// Adds a group of files. The number of symbols of each is given.
    pub fn add_group(&mut self, symbol_counts: &Vec<usize>)
        ensures
            final(self).group_count() == old(self).group_count() + 1,
            forall|group: int, file: int| #[trigger]
                final(self).pending(group, file) == (if group == old(self).group_count() {
                    if 0 <= file < symbol_counts@.len() {
                        Some(symbol_counts@[file])
                    } else {
                        None
                    }
                } else {
                    old(self).pending(group, file)
                }),
    {
        let mut cells: Vec<atomic_take::AtomicTake<usize>> = Vec::new();
        let mut i: usize = 0;
        while i < symbol_counts.len()
            invariant
                i <= symbol_counts@.len(),
                cells@.len() == i,
                forall|k: int|
                    0 <= k < i ==> take_cells::take_contents(#[trigger] cells@[k]) == seq![
                        symbol_counts@[k],
                    ],
            decreases symbol_counts@.len() - i,
        {
            cells.push(atomic_take_new(symbol_counts[i]));
            i = i + 1;
        }
        self.groups.push(cells);
    }

    /// Asks for a file to be loaded. Returns the number of its symbols, or `None` if it has been
    /// asked for before or belongs to an earlier batch of files.
    pub fn try_request_file_id(&mut self, file_id: FileId) -> (symbol_count: Option<usize>)
        requires
            file_id.spec_group() < old(self).group_count(),
        ensures
            symbol_count == old(self).pending(file_id.spec_group(), file_id.spec_file()),
            final(self).group_count() == old(self).group_count(),
            forall|group: int, file: int| #[trigger]
                final(self).pending(group, file) == (if group == file_id.spec_group() && file
                    == file_id.spec_file() {
                    None
                } else {
                    old(self).pending(group, file)
                }),
    {
        let group: usize = file_id.group();
        let file: usize = file_id.file();
        if file >= self.groups[group].len() {
            return None;
        }
        if atomic_take_is_taken(&self.groups[group][file]) {
            return None;
        }
        let ghost before = self.groups@;
        let taken: Option<usize> = atomic_take_take(&mut self.groups[group][file]);
        assert forall|g: int, f: int| #[trigger] self.pending(g, f) == (if g == group && f == file {
            None
        } else {
            old(self).pending(g, f)
        }) by {
            assert(g != group && 0 <= g < before.len() ==> self.groups@[g] == before[g]);
            assert(f != file && 0 <= f < before[group as int]@.len()
                ==> self.groups@[group as int]@[f] == before[group as int]@[f]);
        }
        taken
    }
}

/// A part of the symbols of a file that is resolved as one piece of work.
#[derive(Clone, Copy, Debug, PartialEq, Eq, Structural)]
pub struct SymbolChunk {
    pub symbol_start_offset: usize,
    pub len: usize,
}

/// The symbols from the given one on, in pieces of at most `size`. There is always at least one.
pub open spec fn chunks_from(start: int, total: int, size: int) -> Seq<SymbolChunk>
    decreases total - start,
{
    if total - start <= size || size <= 0 {
        seq![SymbolChunk { symbol_start_offset: start as usize, len: (total - start) as usize }]
    } else {
        seq![SymbolChunk { symbol_start_offset: start as usize, len: size as usize }] + chunks_from(
            start + size,
            total,
            size,
        )
    }
}

/// The pieces of work for the symbols of a file. Those of object files are split up.
pub fn work_items_do(symbol_count: usize, is_object: bool, max_symbols: usize) -> (items: Vec<
    SymbolChunk,
>)
    requires
        max_symbols > 0,
    ensures
        items@ == chunks_from(
            0,
            symbol_count as int,
            if is_object {
                max_symbols as int
            } else {
                symbol_count as int
            },
        ),
{
    let chunk_size: usize = if is_object {
        max_symbols
    } else {
        symbol_count
    };
    let ghost expected = chunks_from(0, symbol_count as int, chunk_size as int);
    let mut items: Vec<SymbolChunk> = Vec::new();
    let mut start: usize = 0;
    assert(expected =~= items@ + expected);
    while symbol_count - start > chunk_size
        invariant
            start <= symbol_count,
            chunk_size > 0 || symbol_count == 0,
            expected == items@ + chunks_from(
                start as int,
                symbol_count as int,
                chunk_size as int,
            ),
        decreases symbol_count - start,
    {
        let item: SymbolChunk = SymbolChunk { symbol_start_offset: start, len: chunk_size };
        let ghost before = items@;
        let ghost rest = chunks_from(
            start + chunk_size,
            symbol_count as int,
            chunk_size as int,
        );
        items.push(item);
        assert(before + (seq![item] + rest) =~= items@ + rest);
        start = start + chunk_size;
    }
    let last: SymbolChunk = SymbolChunk { symbol_start_offset: start, len: symbol_count - start };
    let ghost before = items@;
    items.push(last);
    assert(items@ =~= before + seq![last]);
    items
}

/// The pieces of work follow one another and end with the last symbol.
pub proof fn lemma_chunks_cover(start: int, total: int, size: int)
    requires
        0 <= start <= total <= usize::MAX,
        size > 0 || (size == 0 && start == total),
    ensures
        chunks_from(start, total, size).len() > 0,
        chunks_from(start, total, size)[0].symbol_start_offset == start,
        forall|i: int|
            0 <= i < chunks_from(start, total, size).len() - 1 ==> (#[trigger] chunks_from(
                start,
                total,
                size,
            )[i]).symbol_start_offset + chunks_from(start, total, size)[i].len == chunks_from(
                start,
                total,
                size,
            )[i + 1].symbol_start_offset,
        chunks_from(start, total, size).last().symbol_start_offset + chunks_from(
            start,
            total,
            size,
        ).last().len == total,
        forall|i: int|
            0 <= i < chunks_from(start, total, size).len() ==> (#[trigger] chunks_from(
                start,
                total,
                size,
            )[i]).len <= size || start == total,
    decreases total - start,
{
    if total - start > size {
        lemma_chunks_cover(start + size, total, size);
        let all = chunks_from(start, total, size);
        let rest = chunks_from(start + size, total, size);
        assert(all.last() == rest.last());
        assert forall|i: int| 0 <= i < all.len() - 1 implies (#[trigger] all[i]).symbol_start_offset
            + all[i].len == all[i + 1].symbol_start_offset by {
            if i > 0 {
                assert(all[i] == rest[i - 1]);
            }
        }
        assert forall|i: int| 0 <= i < all.len() implies (#[trigger] all[i]).len <= size || start
            == total by {
            if i > 0 {
                assert(all[i] == rest[i - 1]);
            }
        }
    }
}

/// Whether names stand for symbols that exist.
pub open spec fn names_exist<'a>(
    symbols: Map<Seq<u8>, u64>,
    files: SymbolFiles<'a>,
    flags_count: int,
) -> bool {
    forall|name: Seq<u8>| #[trigger]
        symbols.contains_key(name) ==> symbols[name] < files.file_ids@.len() && symbols[name]
            < flags_count
}

/// The flags of all symbols and the requests for files after the symbols that the first `count`
/// names stand for have been referred to by something that is not intermediate code.
pub open spec fn referred<'a>(
    names: Seq<Seq<u8>>,
    symbols: Map<Seq<u8>, u64>,
    files: SymbolFiles<'a>,
    flags: Seq<ValueFlags>,
    requests: Seq<FileId>,
    count: int,
) -> (Seq<ValueFlags>, Seq<FileId>)
    decreases count,
{
    if count <= 0 {
        (flags, requests)
    } else {
        let (flags_before, requests_before) = referred(
            names,
            symbols,
            files,
            flags,
            requests,
            count - 1,
        );
        if !symbols.contains_key(names[count - 1]) {
            (flags_before, requests_before)
        } else {
            let id = symbols[names[count - 1]] as int;
            (
                flags_before.update(
                    id,
                    ValueFlags { has_non_ir_ref: true, ..flags_before[id] },
                ),
                requests_before.push(files.file_ids@[id]),
            )
        }
    }
}

/// Refers to the symbols that an expression names. Names that no symbol has are skipped.
pub fn load_symbols_in_redirect<'a, 'data>(
    names: &Vec<&'data [u8]>,
    symbols: &NameMap,
    files: &SymbolFiles<'a>,
    state: &mut ResolutionState<'data>,
)
    requires
        files.wf(),
        names_exist(symbols@, *files, old(state).flags@.len() as int),
    ensures
        final(state).undefined@ == old(state).undefined@,
        final(state).flags@.len() == old(state).flags@.len(),
        (final(state).flags@, final(state).requests@) == referred(
            internal_symbols::names_of(names@),
            symbols@,
            *files,
            old(state).flags@,
            old(state).requests@,
            names@.len() as int,
        ),
{
    let ghost flags = state.flags@;
    let ghost requests = state.requests@;
    let ghost expected = internal_symbols::names_of(names@);
    let mut i: usize = 0;
    while i < names.len()
        invariant
            i <= names@.len(),
            files.wf(),
            flags == old(state).flags@,
            requests == old(state).requests@,
            expected == internal_symbols::names_of(names@),
            state.undefined@ == old(state).undefined@,
            state.flags@.len() == flags.len(),
            names_exist(symbols@, *files, flags.len() as int),
            (state.flags@, state.requests@) == referred(
                expected,
                symbols@,
                *files,
                flags,
                requests,
                i as int,
            ),
        decreases names@.len() - i,
    {
        assert(expected[i as int] == names@[i as int]@);
        if let Some(raw) = symbols.get(names[i]) {
            assert(symbols@.contains_key(expected[i as int]));
            let count: usize = files.file_ids.len();
            assert(raw < count);
            let index: usize = raw as usize;
            let mut updated: ValueFlags = state.flags[index];
            updated.has_non_ir_ref = true;
            state.flags.set(index, updated);
            state.requests.push(files.file_ids[index]);
        }
        i = i + 1;
    }
}

/// A symbol that the linker defines.
#[derive(Clone, Copy, Debug)]
pub struct PreludeSymbol<'data> {
    pub name: &'data [u8],
    pub placement: SymbolPlacement<'data>,
}

/// What is known after the first `count` symbols of the linker have been dealt with: those that the
/// arguments ask for are looked up, and expressions refer to the symbols that they name.
pub open spec fn prelude_progress<'a, 'data>(
    initial: Progress<'data>,
    symbols: Seq<PreludeSymbol<'data>>,
    names: Map<Seq<u8>, u64>,
    files: SymbolFiles<'a>,
    count: int,
) -> Progress<'data>
    decreases count,
{
    if count <= 0 {
        initial
    } else {
        let before = prelude_progress(initial, symbols, names, files, count - 1);
        let symbol = symbols[count - 1];
        match symbol.placement {
            SymbolPlacement::ForceUndefined => if names.contains_key(symbol.name@) {
                let id = SymbolId(names[symbol.name@] as u32);
                Progress {
                    definitions: before.definitions.update(count - 1, id),
                    requests: before.requests.push(files.file_ids@[id.0 as int]),
                    ..before
                }
            } else {
                before
            },
            SymbolPlacement::Redirect(expression) => {
                let referenced = internal_symbols::symbol_names(expression);
                let (flags, requests) = referred(
                    referenced,
                    names,
                    files,
                    before.flags,
                    before.requests,
                    referenced.len() as int,
                );
                Progress { flags, requests, ..before }
            },
            _ => before,
        }
    }
}

/// What is known after the entry point has been referred to.
pub open spec fn entry_progress<'a, 'data>(
    initial: Progress<'data>,
    entry_name: Option<&[u8]>,
    names: Map<Seq<u8>, u64>,
    files: SymbolFiles<'a>,
) -> Progress<'data> {
    match entry_name {
        Some(name) => {
            let (flags, requests) = referred(
                seq![name@],
                names,
                files,
                initial.flags,
                initial.requests,
                1,
            );
            Progress { flags, requests, ..initial }
        },
        None => initial,
    }
}

/// Looks up the entry point and the symbols of the linker. Definitions of symbols that the arguments
/// ask for are recorded.
#[verifier::rlimit(30)]
pub fn load_prelude<'a, 'data>(
    entry_name: Option<&'data [u8]>,
    symbols: &Vec<PreludeSymbol<'data>>,
    names: &NameMap,
    files: &SymbolFiles<'a>,
    definitions: &mut Vec<SymbolId>,
    state: &mut ResolutionState<'data>,
)
    requires
        files.wf(),
        files.file_ids@.len() <= u32::MAX,
        names_exist(names@, *files, old(state).flags@.len() as int),
        symbols@.len() == old(definitions)@.len(),
    ensures
        final(state).progress(final(definitions)@) == prelude_progress(
            entry_progress(old(state).progress(old(definitions)@), entry_name, names@, *files),
            symbols@,
            names@,
            *files,
            symbols@.len() as int,
        ),
{
    let ghost initial = entry_progress(
        state.progress(definitions@),
        entry_name,
        names@,
        *files,
    );
    if let Some(name) = entry_name {
        let mut entry: Vec<&'data [u8]> = Vec::new();
        entry.push(name);
        assert(internal_symbols::names_of(entry@) =~= seq![name@]);
        load_symbols_in_redirect(&entry, names, files, state);
    }
    let mut i: usize = 0;
    while i < symbols.len()
        invariant
            i <= symbols@.len(),
            files.wf(),
            files.file_ids@.len() <= u32::MAX,
            definitions@.len() == symbols@.len(),
            state.flags@.len() == old(state).flags@.len(),
            names_exist(names@, *files, old(state).flags@.len() as int),
            state.progress(definitions@) == prelude_progress(
                initial,
                symbols@,
                names@,
                *files,
                i as int,
            ),
        decreases symbols@.len() - i,
    {
        let symbol: PreludeSymbol<'data> = symbols[i];
        match symbol.placement {
            SymbolPlacement::ForceUndefined => {
                if let Some(raw) = names.get(symbol.name) {
                    assert(names@.contains_key(symbol.name@));
                    let count: usize = files.file_ids.len();
                    assert(raw < count);
                    definitions.set(i, SymbolId::new(raw as u32));
                    state.requests.push(files.file_ids[raw as usize]);
                }
            },
            SymbolPlacement::Redirect(expression) => {
                let mut referenced: Vec<&'data [u8]> = Vec::new();
                expression.collect_symbol_names(&mut referenced);
                assert(internal_symbols::names_of(referenced@)
                    =~= internal_symbols::symbol_names(expression));
                load_symbols_in_redirect(&referenced, names, files, state);
            },
            _ => {},
        }
        i = i + 1;
    }
}

/// The kind of a group of files.
#[derive(Clone, Copy, Debug, PartialEq, Eq, Structural)]
pub enum GroupKind {
    Prelude,
    Objects,
    StubLibraries,
    LinkerScripts,
    SyntheticSymbols,
    LtoInputs,
}

/// How the symbols of a file are resolved.
#[derive(Clone, Copy, Debug, PartialEq, Eq, Structural)]
pub enum ResolveStep {
    /// Ask for the entry symbol and for symbols that the arguments name.
    LoadPrelude,
    /// Look up the definitions of the symbols of an object.
    ResolveObject,
    /// Ask for what the expressions of the scripts refer to.
    LoadRedirects,
    /// Look up the definitions of the symbols of a file of intermediate code.
    ResolveLtoInput,
    Nothing,
}

/// How the symbols of a file are resolved.
pub fn process_object(kind: GroupKind) -> (step: ResolveStep)
    ensures
        step == (match kind {
            GroupKind::Prelude => ResolveStep::LoadPrelude,
            GroupKind::Objects => ResolveStep::ResolveObject,
            GroupKind::LinkerScripts => ResolveStep::LoadRedirects,
            GroupKind::LtoInputs => ResolveStep::ResolveLtoInput,
            GroupKind::StubLibraries | GroupKind::SyntheticSymbols => ResolveStep::Nothing,
        }),
{
    match kind {
        GroupKind::Prelude => ResolveStep::LoadPrelude,
        GroupKind::Objects => ResolveStep::ResolveObject,
        GroupKind::LinkerScripts => ResolveStep::LoadRedirects,
        GroupKind::LtoInputs => ResolveStep::ResolveLtoInput,
        GroupKind::StubLibraries | GroupKind::SyntheticSymbols => ResolveStep::Nothing,
    }
}

} // verus!
