//! The libraries that a Mach-O file needs, and the symbols that it takes from them.
use crate::file_id::FileId;
use crate::macho_segments;
use crate::macho_segments::{section_header_name_for_segment, MachOSegmentDef};
use crate::output_order::OrderEvent;
use crate::output_section_id::OutputSectionId;
use crate::output_section_map::OutputSectionMap;
use crate::output_sections::OutputSections;
use crate::program_segments::ProgramSegmentId;
use crate::record_layout::OutputRecordLayout;
use crate::resolution::Resolution;
use crate::stable_order;
use crate::symbol_id::SymbolId;
use vstd::prelude::*;

verus! {

/// What is used of a library.
#[derive(Debug)]
pub struct DynamicLayoutStateExt {
    pub imported_symbols: Vec<SymbolId>,
    /// The output names the library.
    pub loaded: bool,
}

/// A library.
#[derive(Debug)]
pub struct Library {
    pub file_id: FileId,
    pub state: DynamicLayoutStateExt,
}

/// A file of a group.
#[derive(Debug)]
pub enum GroupFile {
    StubLibrary(Library),
    Dynamic(Library),
    Other,
}

/// The libraries that the output names, and the symbols that it takes from libraries.
#[derive(Debug)]
pub struct FinaliseSizesExt {
    pub imported_libraries: Vec<FileId>,
    pub imported_symbols: Vec<SymbolId>,
}

/// A symbol that is taken from a library, and where its entries are.
#[derive(Clone, Copy, Debug, PartialEq, Eq, Structural)]
pub struct ImportedSymbolWithResolution {
    pub symbol_id: SymbolId,
    /// Never 0.
    pub got_address: u64,
    /// Never 0.
    pub plt_address: Option<u64>,
}

impl DynamicLayoutStateExt {
    /// Nothing is taken from the library. It is named anyway, unless unused libraries are dropped.
    pub fn new(dead_strip_dylibs: bool) -> (state: DynamicLayoutStateExt)
        ensures
            state.imported_symbols@ == Seq::<SymbolId>::empty(),
            state.loaded == !dead_strip_dylibs,
    {
        DynamicLayoutStateExt { imported_symbols: Vec::new(), loaded: !dead_strip_dylibs }
    }

    /// Takes a symbol from the library, which the output then names.
    pub fn load_stub_library_symbol(&mut self, symbol_id: SymbolId)
        ensures
            final(self).loaded,
            final(self).imported_symbols@ == old(self).imported_symbols@.push(symbol_id),
    {
        self.loaded = true;
        self.imported_symbols.push(symbol_id);
    }
}

/// The library that a file is.
pub open spec fn library_of(file: GroupFile) -> Option<Library> {
    match file {
        GroupFile::StubLibrary(library) => Some(library),
        GroupFile::Dynamic(library) => Some(library),
        GroupFile::Other => None,
    }
}

fn as_library(file: &GroupFile) -> (library: Option<&Library>)
    ensures
        match (library, library_of(*file)) {
            (Some(library), Some(expected)) => *library == expected,
            (None, None) => true,
            _ => false,
        },
{
    match file {
        GroupFile::StubLibrary(library) => Some(library),
        GroupFile::Dynamic(library) => Some(library),
        GroupFile::Other => None,
    }
}

/// Those of the first `count` files that are libraries which the output names.
pub open spec fn libraries_in(files: Seq<GroupFile>, count: int) -> Seq<FileId>
    decreases count,
{
    if count <= 0 {
        Seq::empty()
    } else {
        let before = libraries_in(files, count - 1);
        match library_of(files[count - 1]) {
            Some(library) => if library.state.loaded {
                before.push(library.file_id)
            } else {
                before
            },
            None => before,
        }
    }
}

/// The symbols that are taken from the first `count` files.
pub open spec fn symbols_in(files: Seq<GroupFile>, count: int) -> Seq<SymbolId>
    decreases count,
{
    if count <= 0 {
        Seq::empty()
    } else {
        let before = symbols_in(files, count - 1);
        match library_of(files[count - 1]) {
            Some(library) => before + library.state.imported_symbols@,
            None => before,
        }
    }
}

/// The libraries of the first `count` groups that the output names.
pub open spec fn all_libraries(groups: Seq<Vec<GroupFile>>, count: int) -> Seq<FileId>
    decreases count,
{
    if count <= 0 {
        Seq::empty()
    } else {
        all_libraries(groups, count - 1) + libraries_in(
            groups[count - 1]@,
            groups[count - 1]@.len() as int,
        )
    }
}

/// The symbols that are taken from the libraries of the first `count` groups.
pub open spec fn all_symbols(groups: Seq<Vec<GroupFile>>, count: int) -> Seq<SymbolId>
    decreases count,
{
    if count <= 0 {
        Seq::empty()
    } else {
        all_symbols(groups, count - 1) + symbols_in(
            groups[count - 1]@,
            groups[count - 1]@.len() as int,
        )
    }
}

fn append_symbols(symbols: &mut Vec<SymbolId>, more: &Vec<SymbolId>)
    ensures
        final(symbols)@ == old(symbols)@ + more@,
{
    let ghost before = symbols@;
    let mut i: usize = 0;
    assert(before =~= before + more@.take(0));
    while i < more.len()
        invariant
            i <= more@.len(),
            symbols@ == before + more@.take(i as int),
        decreases more@.len() - i,
    {
        symbols.push(more[i]);
        assert(symbols@ =~= before + more@.take(i + 1));
        i = i + 1;
    }
    assert(more@.take(more@.len() as int) =~= more@);
}

/// Collects what is used of all libraries.
pub fn create_finalise_sizes_ext(groups: &Vec<Vec<GroupFile>>) -> (collected: FinaliseSizesExt)
    ensures
        collected.imported_libraries@ == all_libraries(groups@, groups@.len() as int),
        collected.imported_symbols@ == all_symbols(groups@, groups@.len() as int),
{
    let mut imported_libraries: Vec<FileId> = Vec::new();
    let mut imported_symbols: Vec<SymbolId> = Vec::new();
    let mut g: usize = 0;
    while g < groups.len()
        invariant
            g <= groups@.len(),
            imported_libraries@ == all_libraries(groups@, g as int),
            imported_symbols@ == all_symbols(groups@, g as int),
        decreases groups@.len() - g,
    {
        let files: &Vec<GroupFile> = &groups[g];
        let ghost libraries = imported_libraries@;
        let ghost symbols = imported_symbols@;
        let mut f: usize = 0;
        assert(libraries =~= libraries + libraries_in(files@, 0));
        assert(symbols =~= symbols + symbols_in(files@, 0));
        while f < files.len()
            invariant
                f <= files@.len(),
                imported_libraries@ == libraries + libraries_in(files@, f as int),
                imported_symbols@ == symbols + symbols_in(files@, f as int),
            decreases files@.len() - f,
        {
            if let Some(library) = as_library(&files[f]) {
                if library.state.loaded {
                    imported_libraries.push(library.file_id);
                }
                append_symbols(&mut imported_symbols, &library.state.imported_symbols);
            }
            assert(imported_libraries@ =~= libraries + libraries_in(files@, f + 1));
            assert(imported_symbols@ =~= symbols + symbols_in(files@, f + 1));
            f = f + 1;
        }
        g = g + 1;
    }
    FinaliseSizesExt { imported_libraries, imported_symbols }
}

/// The symbols that are taken from libraries.
pub fn new_epilogue_layout(groups: &Vec<Vec<GroupFile>>) -> (imported_symbols: Vec<SymbolId>)
    ensures
        imported_symbols@ == all_symbols(groups@, groups@.len() as int),
{
    create_finalise_sizes_ext(groups).imported_symbols
}

/// Why the entries of imported symbols are not known.
#[derive(Clone, Copy, Debug, PartialEq, Eq, Structural)]
pub enum ImportError {
    MissingResolution,
    MissingGotEntry,
}

/// The entries of a symbol.
pub open spec fn entries_of(
    symbol_id: SymbolId,
    resolutions: Seq<Option<Resolution>>,
) -> Result<ImportedSymbolWithResolution, ImportError> {
    match resolutions[symbol_id.0 as int] {
        None => Err(ImportError::MissingResolution),
        Some(resolution) => match resolution.got_address {
            None => Err(ImportError::MissingGotEntry),
            Some(got_address) => Ok(
                ImportedSymbolWithResolution {
                    symbol_id,
                    got_address,
                    plt_address: resolution.plt_address,
                },
            ),
        },
    }
}

/// The entries of the first `count` symbols, or the first reason why there are none.
pub open spec fn all_entries(
    symbols: Seq<SymbolId>,
    resolutions: Seq<Option<Resolution>>,
    count: int,
) -> Result<Seq<ImportedSymbolWithResolution>, ImportError>
    decreases count,
{
    if count <= 0 {
        Ok(Seq::empty())
    } else {
        match all_entries(symbols, resolutions, count - 1) {
            Err(error) => Err(error),
            Ok(before) => match entries_of(symbols[count - 1], resolutions) {
                Err(error) => Err(error),
                Ok(entry) => Ok(before.push(entry)),
            },
        }
    }
}

proof fn lemma_entries_error(
    symbols: Seq<SymbolId>,
    resolutions: Seq<Option<Resolution>>,
    count: int,
    all: int,
)
    requires
        0 <= count <= all,
        all_entries(symbols, resolutions, count) is Err,
    ensures
        all_entries(symbols, resolutions, all) == all_entries(symbols, resolutions, count),
    decreases all - count,
{
    if count < all {
        lemma_entries_error(symbols, resolutions, count + 1, all);
    }
}

/// The addresses of entries, as keys to sort by.
pub open spec fn got_keys(entries: Seq<ImportedSymbolWithResolution>) -> Seq<(u64, u64)> {
    Seq::new(entries.len(), |i: int| (entries[i].got_address, 0u64))
}

/// Whether a list holds the given entries ordered by address. Entries at the same address stay in
/// their order.
pub open spec fn sorted_by_got(
    sorted: Seq<ImportedSymbolWithResolution>,
    entries: Seq<ImportedSymbolWithResolution>,
) -> bool {
    exists|order: Seq<usize>| #[trigger]
        stable_order::is_stable_order(order, got_keys(entries)) && sorted == Seq::new(
            entries.len(),
            |i: int| entries[order[i] as int],
        )
}

/// The imported symbols and their entries, ordered by address.
pub fn create_layout_ext(
    imported_symbols: &Vec<SymbolId>,
    resolutions: &Vec<Option<Resolution>>,
) -> (result: Result<Vec<ImportedSymbolWithResolution>, ImportError>)
    requires
        forall|i: int|
            0 <= i < imported_symbols@.len() ==> (#[trigger] imported_symbols@[i]).0
                < resolutions@.len(),
    ensures
        match (
            result,
            all_entries(imported_symbols@, resolutions@, imported_symbols@.len() as int),
        ) {
            (Ok(sorted), Ok(entries)) => sorted_by_got(sorted@, entries),
            (Err(error), Err(expected)) => error == expected,
            _ => false,
        },
{
    let mut entries: Vec<ImportedSymbolWithResolution> = Vec::new();
    let mut keys: Vec<(u64, u64)> = Vec::new();
    let mut i: usize = 0;
    while i < imported_symbols.len()
        invariant
            i <= imported_symbols@.len(),
            forall|i: int|
                0 <= i < imported_symbols@.len() ==> (#[trigger] imported_symbols@[i]).0
                    < resolutions@.len(),
            entries@.len() == i,
            keys@ == got_keys(entries@),
            all_entries(imported_symbols@, resolutions@, i as int) == Ok::<_, ImportError>(
                entries@,
            ),
        decreases imported_symbols@.len() - i,
    {
        let symbol_id: SymbolId = imported_symbols[i];
        assert(imported_symbols@[i as int].0 < resolutions@.len());
        let entry: Result<ImportedSymbolWithResolution, ImportError> = match resolutions[symbol_id.as_usize()] {
            None => Err(ImportError::MissingResolution),
            Some(resolution) => match resolution.got_address {
                None => Err(ImportError::MissingGotEntry),
                Some(got_address) => Ok(
                    ImportedSymbolWithResolution {
                        symbol_id,
                        got_address,
                        plt_address: resolution.plt_address,
                    },
                ),
            },
        };
        match entry {
            Ok(entry) => {
                let ghost before = entries@;
                entries.push(entry);
                keys.push((entry.got_address, 0));
                assert(keys@ =~= got_keys(entries@));
            },
            Err(error) => {
                proof {
                    lemma_entries_error(
                        imported_symbols@,
                        resolutions@,
                        i + 1,
                        imported_symbols@.len() as int,
                    );
                }
                return Err(error);
            },
        }
        i = i + 1;
    }
    let order: Vec<usize> = stable_order::stable_order(&keys);
    let mut sorted: Vec<ImportedSymbolWithResolution> = Vec::new();
    let mut k: usize = 0;
    while k < order.len()
        invariant
            k <= order@.len(),
            keys@ == got_keys(entries@),
            stable_order::is_stable_order(order@, keys@),
            sorted@.len() == k,
            forall|j: int| 0 <= j < k ==> sorted@[j] == entries@[order@[j] as int],
        decreases order@.len() - k,
    {
        assert(order@[k as int] < keys@.len());
        sorted.push(entries[order[k]]);
        k = k + 1;
    }
    assert(sorted@ =~= Seq::new(entries@.len(), |i: int| entries@[order@[i] as int]));
    assert(stable_order::is_stable_order(order@, got_keys(entries@)));
    Ok(sorted)
}

/// There are too many libraries to number them.
#[derive(Clone, Copy, Debug, PartialEq, Eq, Structural)]
pub struct TooManyLibraries;

/// The position of a file among others, from the given one on.
pub open spec fn position_from(files: Seq<FileId>, file_id: FileId, from: int) -> Option<int>
    decreases files.len() - from,
{
    if from >= files.len() {
        None
    } else if files[from] == file_id {
        Some(from)
    } else {
        position_from(files, file_id, from + 1)
    }
}

/// The number by which imports refer to a library, which is never 0. `None` if the output does not
/// name the library.
pub fn create_dynamic_layout_ext(
    target_file_id: FileId,
    imported_libraries: &Vec<FileId>,
) -> (result: Result<Option<u8>, TooManyLibraries>)
    ensures
        match position_from(imported_libraries@, target_file_id, 0) {
            None => result == Ok::<Option<u8>, TooManyLibraries>(None),
            Some(position) => if position + 1 <= u8::MAX {
                result == Ok::<Option<u8>, TooManyLibraries>(Some((position + 1) as u8))
            } else {
                result == Err::<Option<u8>, TooManyLibraries>(TooManyLibraries)
            },
        },
{
    let mut i: usize = 0;
    while i < imported_libraries.len()
        invariant
            i <= imported_libraries@.len(),
            position_from(imported_libraries@, target_file_id, 0) == position_from(
                imported_libraries@,
                target_file_id,
                i as int,
            ),
        decreases imported_libraries@.len() - i,
    {
        if imported_libraries[i].as_u32() == target_file_id.as_u32() {
            return if i < 255 {
                Ok(Some(i as u8 + 1))
            } else {
                Err(TooManyLibraries)
            };
        }
        i = i + 1;
    }
    Ok(None)
}

/// A section of a segment: where it is and under which name.
#[derive(Clone, Copy, Debug)]
pub struct SegmentSection<'data> {
    pub layout: OutputRecordLayout,
    pub name: &'data [u8],
    pub id: OutputSectionId,
}

/// The sections that have headers in a segment, from the given event on. `inside` says whether the
/// segment has started.
pub open spec fn segment_sections_from<'data>(
    events: Seq<OrderEvent<'data>>,
    sections: &OutputSections<'data>,
    layouts: Seq<OutputRecordLayout>,
    segment_id: ProgramSegmentId,
    segment: Seq<u8>,
    inside: bool,
    from: int,
) -> Seq<SegmentSection<'data>>
    decreases events.len() - from,
{
    if from >= events.len() {
        Seq::empty()
    } else {
        match events[from] {
            OrderEvent::SegmentStart(id) => segment_sections_from(
                events,
                sections,
                layouts,
                segment_id,
                segment,
                inside || id == segment_id,
                from + 1,
            ),
            OrderEvent::SegmentEnd(id) => if id == segment_id && inside {
                Seq::empty()
            } else {
                segment_sections_from(
                    events,
                    sections,
                    layouts,
                    segment_id,
                    segment,
                    inside,
                    from + 1,
                )
            },
            OrderEvent::Section(id) => {
                let rest = segment_sections_from(
                    events,
                    sections,
                    layouts,
                    segment_id,
                    segment,
                    inside,
                    from + 1,
                );
                match macho_segments::header_name(sections, id, segment) {
                    Some(name) => if inside {
                        seq![SegmentSection { layout: layouts[id.0 as int], name, id }] + rest
                    } else {
                        rest
                    },
                    None => rest,
                }
            },
            _ => segment_sections_from(
                events,
                sections,
                layouts,
                segment_id,
                segment,
                inside,
                from + 1,
            ),
        }
    }
}

/// The sections that have headers in a segment, in the order in which they are emitted.
pub fn get_segment_sections<'data>(
    events: &Vec<OrderEvent<'data>>,
    sections: &OutputSections<'data>,
    merged_section_layouts: &OutputSectionMap<OutputRecordLayout>,
    segment_id: ProgramSegmentId,
    segment_def: MachOSegmentDef,
) -> (found: Vec<SegmentSection<'data>>)
    requires
        merged_section_layouts@.len() == sections.count(),
        forall|i: int|
            0 <= i < events@.len() ==> ((#[trigger] events@[i]) matches OrderEvent::Section(id)
                ==> sections.has(id)),
    ensures
        found@ == segment_sections_from(
            events@,
            sections,
            merged_section_layouts@,
            segment_id,
            segment_def.name.bytes@,
            false,
            0,
        ),
{
    let ghost segment = segment_def.name.bytes@;
    let ghost layouts = merged_section_layouts@;
    let ghost expected = segment_sections_from(
        events@,
        sections,
        layouts,
        segment_id,
        segment,
        false,
        0,
    );
    let mut found: Vec<SegmentSection<'data>> = Vec::new();
    let mut inside: bool = false;
    let mut i: usize = 0;
    assert(expected =~= found@ + expected);
    while i < events.len()
        invariant
            i <= events@.len(),
            merged_section_layouts@.len() == sections.count(),
            forall|i: int|
                0 <= i < events@.len() ==> ((#[trigger] events@[i]) matches OrderEvent::Section(id)
                    ==> sections.has(id)),
            segment == segment_def.name.bytes@,
            layouts == merged_section_layouts@,
            expected == segment_sections_from(
                events@,
                sections,
                layouts,
                segment_id,
                segment,
                false,
                0,
            ),
            expected == found@ + segment_sections_from(
                events@,
                sections,
                layouts,
                segment_id,
                segment,
                inside,
                i as int,
            ),
        decreases events@.len() - i,
    {
        match events[i] {
            OrderEvent::SegmentStart(id) => {
                if id.0 == segment_id.0 {
                    inside = true;
                }
            },
            OrderEvent::SegmentEnd(id) => {
                if id.0 == segment_id.0 && inside {
                    assert(expected =~= found@);
                    return found;
                }
            },
            OrderEvent::Section(id) => {
                assert(events@[i as int] == OrderEvent::Section(id));
                if inside {
                    if let Some(name) = section_header_name_for_segment(
                        sections,
                        id,
                        segment_def,
                    ) {
                        let ghost before = found@;
                        let ghost rest = segment_sections_from(
                            events@,
                            sections,
                            layouts,
                            segment_id,
                            segment,
                            inside,
                            i + 1,
                        );
                        let section: SegmentSection<'data> = SegmentSection {
                            layout: *merged_section_layouts.get(id),
                            name,
                            id,
                        };
                        found.push(section);
                        assert(before + (seq![section] + rest) =~= found@ + rest);
                    }
                }
            },
            _ => {},
        }
        i = i + 1;
    }
    assert(expected =~= found@);
    found
}

/// A file that defines symbols.
#[derive(Clone, Copy, Debug)]
pub enum DefiningInput<'data> {
    StubLibrary { install_name: &'data [u8] },
    Object { is_dynamic: bool, lib_name: &'data [u8] },
    Other,
}

impl<'data> DefiningInput<'data> {
    pub open spec fn spec_is_dynamic_library(self) -> bool {
        match self {
            DefiningInput::StubLibrary { .. } => true,
            DefiningInput::Object { is_dynamic, .. } => is_dynamic,
            DefiningInput::Other => false,
        }
    }

    /// Whether the file is a library that is loaded when the output runs.
    pub fn is_dynamic_library(self) -> (dynamic: bool)
        ensures
            dynamic == self.spec_is_dynamic_library(),
    {
        match self {
            DefiningInput::StubLibrary { .. } => true,
            DefiningInput::Object { is_dynamic, .. } => is_dynamic,
            DefiningInput::Other => false,
        }
    }

    /// The name that the output knows the library by.
    pub fn install_name(self) -> (name: &'data [u8])
        requires
            !(self is Other),
        ensures
            self matches DefiningInput::StubLibrary { install_name } ==> name == install_name,
            self matches DefiningInput::Object { lib_name, .. } ==> name == lib_name,
    {
        match self {
            DefiningInput::StubLibrary { install_name } => install_name,
            DefiningInput::Object { lib_name, .. } => lib_name,
            DefiningInput::Other => &[],
        }
    }
}

} // verus!
