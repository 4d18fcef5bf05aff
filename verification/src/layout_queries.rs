//! What can be asked of a finished layout.
use crate::alignment;
use crate::alignment::Alignment;
use crate::file_id::FileId;
use crate::hash_maps::IdMap;
use crate::incremental_plan::IncrementalPatchJob;
use crate::input_sections::SectionSlot;
use crate::output_section_id::{OutputSectionId, PartId};
use crate::output_section_map::OutputSectionMap;
use crate::output_section_part_map::OutputSectionPartMap;
use crate::output_sections::OutputSections;
use crate::record_layout::OutputRecordLayout;
use crate::resolution::{Resolution, SectionResolution};
use crate::segment_layout::SegmentLayouts;
use crate::symbol_id::{SymbolId, SymbolIdRange};
use crate::value_flags::ValueFlags;
use vstd::prelude::*;

verus! {

/// The size of what precedes the thread-local data of a thread on AArch64.
pub const AARCH64_TLS_TCB_SIZE: u64 = 16;

/// The place of a file in an archive.
#[derive(Clone, Copy, Debug)]
pub struct ArchiveEntryInfo<'data> {
    pub start: usize,
    pub end: usize,
    pub identifier: &'data [u8],
}

/// An object file that has been laid out.
#[derive(Debug)]
pub struct ObjectLayout<'data> {
    pub file_id: FileId,
    pub symbol_id_range: SymbolIdRange,
    /// How the file is shown to users.
    pub key: &'data [u8],
    pub path: &'data [u8],
    pub archive_entry: Option<ArchiveEntryInfo<'data>>,
    /// The file is removed after linking.
    pub temporary: bool,
    pub sections: Vec<SectionSlot>,
    pub section_resolutions: Vec<SectionResolution>,
    pub section_part_ids: Vec<PartId>,
    /// The sizes of the sections in the file. `None` if the file is malformed.
    pub section_sizes: Vec<Option<u64>>,
}

/// Another file that has been laid out.
#[derive(Clone, Copy, Debug)]
pub struct OtherLayout<'data> {
    pub file_id: FileId,
    pub symbol_id_range: SymbolIdRange,
    pub key: &'data [u8],
    pub path: &'data [u8],
}

/// A file that has been laid out.
#[derive(Debug)]
pub enum FileLayout<'data> {
    /// What the linker defines: the number of symbols and the entry point.
    Prelude { num_symbols: usize, entry_symbol_id: Option<SymbolId> },
    Object(ObjectLayout<'data>),
    Dynamic(OtherLayout<'data>),
    LinkerScript(OtherLayout<'data>),
    /// Symbols that mark the start and the end of sections.
    SyntheticSymbols { start_symbol_id: SymbolId, num_symbols: usize },
    Epilogue,
    StubLibrary,
    NotLoaded,
}

/// What is recorded of an input so that the next link can skip what has not changed.
#[derive(Debug)]
pub struct IncrementalFileRecord<'data> {
    pub file_id: FileId,
    pub key: &'data [u8],
    pub source_path: &'data [u8],
    /// The sizes of the loaded sections.
    pub sizes: Vec<u64>,
    pub num_symbols: usize,
    pub skippable: bool,
}

/// A place that depends on the value of a symbol.
#[derive(Clone, Copy, Debug, PartialEq, Eq, Structural)]
pub struct ReverseReloc {
    /// The unit that defines the symbol, and the number of the symbol in it.
    pub definition_atom: u64,
    pub local_symbol: usize,
    pub file_offset: u64,
    pub place: u64,
    pub addend: i64,
    pub r_type: u32,
    /// The unit that holds the place.
    pub owner_atom: u64,
}

/// A finished layout.
pub struct Layout<'data> {
    pub group_layouts: Vec<Vec<FileLayout<'data>>>,
    pub symbol_resolutions: Vec<Option<Resolution>>,
    /// The definition of each symbol.
    pub definitions: Vec<SymbolId>,
    /// What is known of each symbol.
    pub per_symbol_flags: Vec<ValueFlags>,
    /// The file of each symbol.
    pub symbol_file_ids: Vec<FileId>,
    /// The symbols of each file of each group.
    pub symbol_id_ranges: Vec<Vec<SymbolIdRange>>,
    pub output_sections: OutputSections<'data>,
    pub section_layouts: OutputSectionMap<OutputRecordLayout>,
    pub section_part_layouts: OutputSectionPartMap<OutputRecordLayout>,
    pub segment_layouts: SegmentLayouts,
    /// How many range-extension thunks each block holds.
    pub thunk_block_sizes: Vec<u64>,
    pub got_section_id: Option<OutputSectionId>,
    pub gnu_version_section_id: Option<OutputSectionId>,
    pub incremental: bool,
    /// The unit of each file.
    pub incremental_atoms: IdMap,
    /// The files whose contents are already in the output.
    pub incremental_skip_payloads: IdMap,
    pub incremental_reverse_relocs: Vec<ReverseReloc>,
    /// What it takes to update those files.
    pub incremental_patch: Option<IncrementalPatchJob>,
}

/// The key under which the linker's own symbols are recorded.
pub open spec fn prelude_key() -> Seq<u8> {
    // <prelude>
    seq![0x3cu8, 0x70, 0x72, 0x65, 0x6c, 0x75, 0x64, 0x65, 0x3e]
}

/// The key under which symbols for sections are recorded.
pub open spec fn synthetic_key() -> Seq<u8> {
    // <synthetic>
    seq![0x3cu8, 0x73, 0x79, 0x6e, 0x74, 0x68, 0x65, 0x74, 0x69, 0x63, 0x3e]
}

/// What a record holds.
pub ghost struct RecordContents {
    pub file_id: FileId,
    pub key: Seq<u8>,
    pub source_path: Seq<u8>,
    pub sizes: Seq<u64>,
    pub num_symbols: usize,
    pub skippable: bool,
}

impl<'data> IncrementalFileRecord<'data> {
    pub open spec fn contents(&self) -> RecordContents {
        RecordContents {
            file_id: self.file_id,
            key: self.key@,
            source_path: self.source_path@,
            sizes: self.sizes@,
            num_symbols: self.num_symbols,
            skippable: self.skippable,
        }
    }
}

/// The contents of records.
pub open spec fn contents_of<'data>(records: Seq<IncrementalFileRecord<'data>>) -> Seq<
    RecordContents,
> {
    Seq::new(records.len(), |i: int| records[i].contents())
}

/// The sizes of those of the first `count` sections that are loaded.
pub open spec fn loaded_sizes(slots: Seq<SectionSlot>, count: int) -> Seq<u64>
    decreases count,
{
    if count <= 0 {
        Seq::empty()
    } else {
        let before = loaded_sizes(slots, count - 1);
        match slots[count - 1] {
            SectionSlot::Loaded(section) => before.push(section.size),
            _ => before,
        }
    }
}

/// What is recorded of a file. Only object files can be skipped.
pub open spec fn recorded_of<'data>(file: FileLayout<'data>, file_ids: Seq<FileId>) -> Option<
    RecordContents,
> {
    match file {
        FileLayout::Prelude { num_symbols, entry_symbol_id: _ } => Some(
            RecordContents {
                file_id: FileId(0),
                key: prelude_key(),
                source_path: Seq::empty(),
                sizes: Seq::empty(),
                num_symbols,
                skippable: false,
            },
        ),
        FileLayout::Object(object) => Some(
            RecordContents {
                file_id: object.file_id,
                key: object.key@,
                source_path: object.path@,
                sizes: loaded_sizes(object.sections@, object.sections@.len() as int),
                num_symbols: object.symbol_id_range.num_symbols,
                skippable: true,
            },
        ),
        FileLayout::Dynamic(other) | FileLayout::LinkerScript(other) => Some(
            RecordContents {
                file_id: other.file_id,
                key: other.key@,
                source_path: other.path@,
                sizes: Seq::empty(),
                num_symbols: other.symbol_id_range.num_symbols,
                skippable: false,
            },
        ),
        FileLayout::SyntheticSymbols { start_symbol_id, num_symbols } => if num_symbols == 0 {
            None
        } else {
            Some(
                RecordContents {
                    file_id: file_ids[start_symbol_id.0 as int],
                    key: synthetic_key(),
                    source_path: Seq::empty(),
                    sizes: Seq::empty(),
                    num_symbols,
                    skippable: false,
                },
            )
        },
        _ => None,
    }
}

/// What is recorded of the first `count` files.
pub open spec fn records_in<'data>(
    files: Seq<FileLayout<'data>>,
    file_ids: Seq<FileId>,
    count: int,
) -> Seq<RecordContents>
    decreases count,
{
    if count <= 0 {
        Seq::empty()
    } else {
        let before = records_in(files, file_ids, count - 1);
        match recorded_of(files[count - 1], file_ids) {
            Some(record) => before.push(record),
            None => before,
        }
    }
}

/// What is recorded of the files of the first `count` groups.
pub open spec fn all_records<'data>(
    groups: Seq<Vec<FileLayout<'data>>>,
    file_ids: Seq<FileId>,
    count: int,
) -> Seq<RecordContents>
    decreases count,
{
    if count <= 0 {
        Seq::empty()
    } else {
        all_records(groups, file_ids, count - 1) + records_in(
            groups[count - 1]@,
            file_ids,
            groups[count - 1]@.len() as int,
        )
    }
}

fn collect_loaded_sizes(slots: &Vec<SectionSlot>) -> (sizes: Vec<u64>)
    ensures
        sizes@ == loaded_sizes(slots@, slots@.len() as int),
{
    let mut sizes: Vec<u64> = Vec::new();
    let mut i: usize = 0;
    while i < slots.len()
        invariant
            i <= slots@.len(),
            sizes@ == loaded_sizes(slots@, i as int),
        decreases slots@.len() - i,
    {
        if let SectionSlot::Loaded(section) = &slots[i] {
            sizes.push(section.size);
        }
        i = i + 1;
    }
    sizes
}

fn record_other<'data>(other: &OtherLayout<'data>) -> (record: IncrementalFileRecord<'data>)
    ensures
        Some(record.contents()) == recorded_of(FileLayout::Dynamic(*other), Seq::empty()),
{
    let sizes: Vec<u64> = Vec::new();
    assert(sizes@ =~= Seq::empty());
    IncrementalFileRecord {
        file_id: other.file_id,
        key: other.key,
        source_path: other.path,
        sizes,
        num_symbols: other.symbol_id_range.len(),
        skippable: false,
    }
}

fn record_file<'data>(file: &FileLayout<'data>, file_ids: &Vec<FileId>) -> (record: Option<
    IncrementalFileRecord<'data>,
>)
    requires
        file matches FileLayout::SyntheticSymbols { start_symbol_id, num_symbols } ==> num_symbols
            > 0 ==> start_symbol_id.0 < file_ids@.len(),
    ensures
        match (record, recorded_of(*file, file_ids@)) {
            (Some(record), Some(expected)) => record.contents() == expected,
            (None, None) => true,
            _ => false,
        },
{
    match file {
        FileLayout::Prelude { num_symbols, entry_symbol_id: _ } => {
            let key: &'static [u8] = &[0x3c, 0x70, 0x72, 0x65, 0x6c, 0x75, 0x64, 0x65, 0x3e];
            let path: &'static [u8] = &[];
            assert(key@ =~= prelude_key());
            assert(path@ =~= Seq::empty());
            let sizes: Vec<u64> = Vec::new();
            assert(sizes@ =~= Seq::empty());
            Some(
                IncrementalFileRecord {
                    file_id: FileId::prelude(),
                    key,
                    source_path: path,
                    sizes,
                    num_symbols: *num_symbols,
                    skippable: false,
                },
            )
        },
        FileLayout::Object(object) => Some(
            IncrementalFileRecord {
                file_id: object.file_id,
                key: object.key,
                source_path: object.path,
                sizes: collect_loaded_sizes(&object.sections),
                num_symbols: object.symbol_id_range.len(),
                skippable: true,
            },
        ),
        FileLayout::Dynamic(other) => Some(record_other(other)),
        FileLayout::LinkerScript(other) => Some(record_other(other)),
        FileLayout::SyntheticSymbols { start_symbol_id, num_symbols } => {
            if *num_symbols == 0 {
                return None;
            }
            let key: &'static [u8] = &[
                0x3c, 0x73, 0x79, 0x6e, 0x74, 0x68, 0x65, 0x74, 0x69, 0x63, 0x3e,
            ];
            let path: &'static [u8] = &[];
            assert(key@ =~= synthetic_key());
            assert(path@ =~= Seq::empty());
            let sizes: Vec<u64> = Vec::new();
            assert(sizes@ =~= Seq::empty());
            Some(
                IncrementalFileRecord {
                    file_id: file_ids[start_symbol_id.as_usize()],
                    key,
                    source_path: path,
                    sizes,
                    num_symbols: *num_symbols,
                    skippable: false,
                },
            )
        },
        FileLayout::Epilogue | FileLayout::StubLibrary | FileLayout::NotLoaded => None,
    }
}

/// The values of the symbols of a file. Symbols without a value have 0.
pub open spec fn values_in_range(
    resolutions: Seq<Option<Resolution>>,
    range: SymbolIdRange,
    count: int,
) -> Seq<u64> {
    Seq::new(
        count as nat,
        |i: int|
            {
                let id = range.start_symbol_id.0 + i;
                if id < resolutions.len() {
                    match resolutions[id] {
                        Some(resolution) => resolution.raw_value,
                        None => 0,
                    }
                } else {
                    0
                }
            },
    )
}

/// Why there is no entry point.
#[derive(Clone, Copy, Debug, PartialEq, Eq, Structural)]
pub enum EntryError {
    /// The symbol was defined but nothing loaded it.
    NotLoaded,
    /// The symbol is neither an address nor an absolute value.
    NotAnAddress,
}

/// The lowest address of the thread-local data among the first `count` sections.
pub open spec fn lowest_tls<'data>(
    sections: &OutputSections<'data>,
    layouts: Seq<OutputRecordLayout>,
    count: int,
) -> Option<u64>
    decreases count,
{
    if count <= 0 {
        None
    } else {
        let before = lowest_tls(sections, layouts, count - 1);
        if !sections.infos()[count - 1].section_attributes.tls {
            before
        } else {
            match before {
                Some(lowest) if lowest <= layouts[count - 1].mem_offset => Some(lowest),
                _ => Some(layouts[count - 1].mem_offset),
            }
        }
    }
}

/// The sum of the first `count` numbers.
pub open spec fn sum_of(sizes: Seq<u64>, count: int) -> int
    decreases count,
{
    if count <= 0 {
        0
    } else {
        sum_of(sizes, count - 1) + sizes[count - 1]
    }
}

proof fn lemma_sum_grows(sizes: Seq<u64>, count: int, all: int)
    requires
        0 <= count <= all <= sizes.len(),
    ensures
        sum_of(sizes, count) <= sum_of(sizes, all),
    decreases all - count,
{
    if count < all {
        lemma_sum_grows(sizes, count, all - 1);
    }
}

impl<'data> Layout<'data> {
    /// Whether everything that the layout refers to exists.
    pub open spec fn wf(&self) -> bool {
        &&& self.output_sections.wf()
        &&& self.section_layouts@.len() == self.output_sections.count()
        &&& self.section_part_layouts.wf()
        &&& self.definitions@.len() == self.symbol_resolutions@.len()
        &&& self.per_symbol_flags@.len() == self.symbol_resolutions@.len()
        &&& self.symbol_file_ids@.len() == self.symbol_resolutions@.len()
        &&& forall|i: int|
            0 <= i < self.definitions@.len() ==> (#[trigger] self.definitions@[i]).0
                < self.definitions@.len()
        &&& self.got_section_id matches Some(id) ==> self.output_sections.has(id)
        &&& self.gnu_version_section_id matches Some(id) ==> self.output_sections.has(id)
    }

    pub open spec fn has_symbol(&self, id: SymbolId) -> bool {
        id.0 < self.symbol_resolutions@.len()
    }

    /// The entry point that the linker's own symbols name.
    pub open spec fn entry_symbol(&self) -> Option<SymbolId> {
        match self.group_layouts@[0]@[0] {
            FileLayout::Prelude { num_symbols: _, entry_symbol_id } => entry_symbol_id,
            _ => None,
        }
    }

    /// Whether the linker's own symbols come first.
    pub open spec fn has_prelude(&self) -> bool {
        self.group_layouts@.len() > 0 && self.group_layouts@[0]@.len() > 0
            && self.group_layouts@[0]@[0] is Prelude
    }

    /// The entry point that the linker's own symbols name, if there is one.
    pub fn prelude_entry(&self) -> (entry: Option<SymbolId>)
        requires
            self.has_prelude(),
        ensures
            entry == self.entry_symbol(),
    {
        match &self.group_layouts[0][0] {
            FileLayout::Prelude { num_symbols: _, entry_symbol_id } => *entry_symbol_id,
            _ => None,
        }
    }

    /// What is recorded of the inputs so that the next link can skip what has not changed.
    pub fn incremental_file_records(&self) -> (records: Vec<IncrementalFileRecord<'data>>)
        requires
            forall|g: int, f: int|
                0 <= g < self.group_layouts@.len() && 0 <= f < self.group_layouts@[g]@.len() ==> (
                #[trigger] self.group_layouts@[g]@[f] matches FileLayout::SyntheticSymbols {
                    start_symbol_id,
                    num_symbols,
                } ==> num_symbols > 0 ==> start_symbol_id.0 < self.symbol_file_ids@.len()),
        ensures
            contents_of(records@) == all_records(
                self.group_layouts@,
                self.symbol_file_ids@,
                self.group_layouts@.len() as int,
            ),
    {
        let ghost ids = self.symbol_file_ids@;
        let mut records: Vec<IncrementalFileRecord<'data>> = Vec::new();
        assert(contents_of(records@) =~= all_records(self.group_layouts@, ids, 0));
        let mut g: usize = 0;
        while g < self.group_layouts.len()
            invariant
                g <= self.group_layouts@.len(),
                ids == self.symbol_file_ids@,
                forall|g: int, f: int|
                    0 <= g < self.group_layouts@.len() && 0 <= f < self.group_layouts@[g]@.len()
                        ==> (#[trigger] self.group_layouts@[g]@[f] matches
                        FileLayout::SyntheticSymbols { start_symbol_id, num_symbols }
                        ==> num_symbols > 0 ==> start_symbol_id.0 < self.symbol_file_ids@.len()),
                contents_of(records@) == all_records(self.group_layouts@, ids, g as int),
            decreases self.group_layouts@.len() - g,
        {
            let files: &Vec<FileLayout<'data>> = &self.group_layouts[g];
            let ghost before = contents_of(records@);
            assert(before =~= before + records_in(files@, ids, 0));
            let mut f: usize = 0;
            while f < files.len()
                invariant
                    f <= files@.len(),
                    ids == self.symbol_file_ids@,
                    g < self.group_layouts@.len(),
                    files@ == self.group_layouts@[g as int]@,
                    forall|g: int, f: int|
                        0 <= g < self.group_layouts@.len() && 0 <= f
                            < self.group_layouts@[g]@.len() ==> (
                        #[trigger] self.group_layouts@[g]@[f] matches
                            FileLayout::SyntheticSymbols { start_symbol_id, num_symbols }
                            ==> num_symbols > 0 ==> start_symbol_id.0
                            < self.symbol_file_ids@.len()),
                    contents_of(records@) == before + records_in(files@, ids, f as int),
                decreases files@.len() - f,
            {
                assert(self.group_layouts@[g as int]@[f as int] == files@[f as int]);
                if let Some(record) = record_file(&files[f], &self.symbol_file_ids) {
                    let ghost so_far = records@;
                    records.push(record);
                    assert(contents_of(records@) =~= contents_of(so_far).push(
                        record.contents(),
                    ));
                    assert(contents_of(records@) =~= before + records_in(files@, ids, f + 1));
                }
                f = f + 1;
            }
            g = g + 1;
        }
        records
    }

    /// The values of the symbols of a range.
    pub fn values_of_range(&self, range: SymbolIdRange) -> (values: Vec<u64>)
        requires
            range.wf(),
        ensures
            values@ == values_in_range(
                self.symbol_resolutions@,
                range,
                range.num_symbols as int,
            ),
    {
        let mut values: Vec<u64> = Vec::new();
        let count: usize = range.len();
        let mut i: usize = 0;
        while i < count
            invariant
                i <= count,
                count == range.num_symbols,
                range.wf(),
                values@ == values_in_range(self.symbol_resolutions@, range, i as int),
            decreases count - i,
        {
            let index: usize = range.offset_to_id(i).as_usize();
            let value: u64 = if index < self.symbol_resolutions.len() {
                match self.symbol_resolutions[index] {
                    Some(resolution) => resolution.raw_value,
                    None => 0,
                }
            } else {
                0
            };
            values.push(value);
            assert(values@ =~= values_in_range(self.symbol_resolutions@, range, i + 1));
            i = i + 1;
        }
        values
    }

    /// For each unit, the values of the symbols of its file, in some order of the units.
    pub fn incremental_resolutions(&self) -> (resolutions: Vec<(u64, Vec<u64>)>)
        requires
            forall|key: u64| #[trigger]
                self.incremental_atoms@.contains_key(key) ==> key <= u32::MAX && self.has_range(
                    FileId(key as u32),
                ),
        ensures
            exists|keys: Seq<u64>|
                {
                    &&& #[trigger] keys.no_duplicates()
                    &&& keys.to_set() == self.incremental_atoms@.dom()
                    &&& resolutions@.len() == keys.len()
                    &&& forall|i: int|
                        0 <= i < keys.len() ==> (#[trigger] resolutions@[i]).0
                            == self.incremental_atoms@[keys[i]] && resolutions@[i].1@
                            == values_in_range(
                            self.symbol_resolutions@,
                            self.range_of(FileId(keys[i] as u32)),
                            self.range_of(FileId(keys[i] as u32)).num_symbols as int,
                        )
                },
    {
        let keys: Vec<u64> = self.incremental_atoms.keys();
        let mut resolutions: Vec<(u64, Vec<u64>)> = Vec::new();
        let mut i: usize = 0;
        while i < keys.len()
            invariant
                i <= keys@.len(),
                keys@.to_set() == self.incremental_atoms@.dom(),
                forall|key: u64| #[trigger]
                    self.incremental_atoms@.contains_key(key) ==> key <= u32::MAX
                        && self.has_range(FileId(key as u32)),
                resolutions@.len() == i,
                forall|k: int|
                    0 <= k < i ==> (#[trigger] resolutions@[k]).0
                        == self.incremental_atoms@[keys@[k]] && resolutions@[k].1@
                        == values_in_range(
                        self.symbol_resolutions@,
                        self.range_of(FileId(keys@[k] as u32)),
                        self.range_of(FileId(keys@[k] as u32)).num_symbols as int,
                    ),
            decreases keys@.len() - i,
        {
            let key: u64 = keys[i];
            assert(keys@.to_set().contains(key)) by {
                assert(keys@[i as int] == key);
            }
            assert(self.incremental_atoms@.contains_key(key));
            let atom: u64 = match self.incremental_atoms.get(key) {
                Some(atom) => atom,
                None => 0,
            };
            let range: SymbolIdRange = self.find_range(FileId(key as u32));
            resolutions.push((atom, self.values_of_range(range)));
            i = i + 1;
        }
        assert(keys@.no_duplicates());
        resolutions
    }

    pub open spec fn has_range(&self, file_id: FileId) -> bool {
        file_id.spec_group() < self.symbol_id_ranges@.len() && file_id.spec_file()
            < self.symbol_id_ranges@[file_id.spec_group()]@.len() && self.range_of(file_id).wf()
    }

    /// The symbols of a file.
    pub open spec fn range_of(&self, file_id: FileId) -> SymbolIdRange {
        self.symbol_id_ranges@[file_id.spec_group()]@[file_id.spec_file()]
    }

    fn find_range(&self, file_id: FileId) -> (range: SymbolIdRange)
        requires
            self.has_range(file_id),
        ensures
            range == self.range_of(file_id),
    {
        self.symbol_id_ranges[file_id.group()][file_id.file()]
    }

    /// Whether the contents of a file are already in the output.
    pub fn skip_incremental_payload(&self, file_id: FileId) -> (skip: bool)
        ensures
            skip == self.incremental_skip_payloads@.contains_key(file_id.0 as u64),
    {
        self.incremental_skip_payloads.contains_key(file_id.0 as u64)
    }

    /// The place to record, if the unit that holds the place and the one that defines the symbol are
    /// both known.
    pub open spec fn reverse_reloc(
        &self,
        symbol_id: SymbolId,
        file_offset: u64,
        place: u64,
        addend: i64,
        r_type: u32,
        file_id: FileId,
    ) -> Option<ReverseReloc> {
        let definition = self.definitions@[symbol_id.0 as int];
        let file = self.symbol_file_ids@[definition.0 as int];
        if self.incremental && self.incremental_atoms@.contains_key(file_id.0 as u64)
            && self.incremental_atoms@.contains_key(file.0 as u64) {
            Some(
                ReverseReloc {
                    definition_atom: self.incremental_atoms@[file.0 as u64],
                    local_symbol: (definition.0 - self.range_of(file).start_symbol_id.0) as usize,
                    file_offset,
                    place,
                    addend,
                    r_type,
                    owner_atom: self.incremental_atoms@[file_id.0 as u64],
                },
            )
        } else {
            None
        }
    }

    /// Records a place that depends on the value of a symbol, if inputs are linked incrementally.
    pub fn record_reverse_reloc(
        &mut self,
        symbol_id: SymbolId,
        file_offset: u64,
        place: u64,
        addend: i64,
        r_type: u32,
        file_id: FileId,
    )
        requires
            old(self).wf(),
            old(self).has_symbol(symbol_id),
            ({
                let definition = old(self).definitions@[symbol_id.0 as int];
                let file = old(self).symbol_file_ids@[definition.0 as int];
                old(self).incremental_atoms@.contains_key(file.0 as u64) ==> old(self).has_range(
                    file,
                ) && old(self).range_of(file).spec_contains(definition)
            }),
        ensures
            *final(self) == (Layout {
                incremental_reverse_relocs: final(self).incremental_reverse_relocs,
                ..*old(self)
            }),
            final(self).incremental_reverse_relocs@ == (match old(self).reverse_reloc(
                symbol_id,
                file_offset,
                place,
                addend,
                r_type,
                file_id,
            ) {
                Some(reloc) => old(self).incremental_reverse_relocs@.push(reloc),
                None => old(self).incremental_reverse_relocs@,
            }),
    {
        if !self.incremental {
            return ;
        }
        let owner_atom: u64 = match self.incremental_atoms.get(file_id.0 as u64) {
            Some(owner) => owner,
            None => {
                return ;
            },
        };
        let definition: SymbolId = self.definitions[symbol_id.as_usize()];
        assert(self.definitions@[symbol_id.0 as int].0 < self.definitions@.len());
        let file: FileId = self.symbol_file_ids[definition.as_usize()];
        let definition_atom: u64 = match self.incremental_atoms.get(file.0 as u64) {
            Some(atom) => atom,
            None => {
                return ;
            },
        };
        assert(self.incremental_atoms@.contains_key(file.0 as u64));
        let range: SymbolIdRange = self.find_range(file);
        let local_symbol: usize = range.id_to_offset(definition);
        self.incremental_reverse_relocs.push(
            ReverseReloc {
                definition_atom,
                local_symbol,
                file_offset,
                place,
                addend,
                r_type,
                owner_atom,
            },
        );
    }

    /// Removes and returns the recorded places.
    pub fn take_reverse_relocs(&mut self) -> (relocs: Vec<ReverseReloc>)
        ensures
            relocs@ == old(self).incremental_reverse_relocs@,
            *final(self) == (Layout {
                incremental_reverse_relocs: final(self).incremental_reverse_relocs,
                ..*old(self)
            }),
            final(self).incremental_reverse_relocs@.len() == 0,
    {
        let mut taken: Vec<ReverseReloc> = Vec::new();
        std::mem::swap(&mut taken, &mut self.incremental_reverse_relocs);
        taken
    }

    /// What is known of a symbol.
    pub fn flags_for_symbol(&self, symbol_id: SymbolId) -> (flags: ValueFlags)
        requires
            self.wf(),
            self.has_symbol(symbol_id),
        ensures
            flags == self.per_symbol_flags@[symbol_id.0 as int],
    {
        self.per_symbol_flags[symbol_id.as_usize()]
    }

    /// The resolution of a symbol, disregarding its definition.
    pub fn local_symbol_resolution(&self, symbol_id: SymbolId) -> (resolution: Option<Resolution>)
        requires
            self.has_symbol(symbol_id),
        ensures
            resolution == self.symbol_resolutions@[symbol_id.0 as int],
    {
        self.symbol_resolutions[symbol_id.as_usize()]
    }

    /// The resolution of the definition of a symbol, with the flags of both.
    pub open spec fn merged_resolution(&self, symbol_id: SymbolId) -> Option<Resolution> {
        match self.symbol_resolutions@[self.definitions@[symbol_id.0 as int].0 as int] {
            Some(resolution) => Some(
                Resolution {
                    flags: resolution.flags.union(self.per_symbol_flags@[symbol_id.0 as int]),
                    ..resolution
                },
            ),
            None => None,
        }
    }

    /// The resolution of the definition of a symbol, with the flags of both.
    pub fn merged_symbol_resolution(&self, symbol_id: SymbolId) -> (resolution: Option<Resolution>)
        requires
            self.wf(),
            self.has_symbol(symbol_id),
        ensures
            resolution == self.merged_resolution(symbol_id),
    {
        let definition: SymbolId = self.definitions[symbol_id.as_usize()];
        assert(self.definitions@[symbol_id.0 as int].0 < self.definitions@.len());
        match self.local_symbol_resolution(definition) {
            Some(resolution) => {
                let mut merged: Resolution = resolution;
                merged.flags.merge(self.flags_for_symbol(symbol_id));
                Some(merged)
            },
            None => None,
        }
    }

    /// The symbols of a range and their resolutions.
    pub fn resolutions_in_range(&self, range: SymbolIdRange) -> (resolutions: Vec<
        (SymbolId, Option<Resolution>),
    >)
        requires
            range.wf(),
            range.start_symbol_id.0 + range.num_symbols <= self.symbol_resolutions@.len(),
        ensures
            resolutions@.len() == range.num_symbols,
            forall|i: int|
                0 <= i < range.num_symbols ==> #[trigger] resolutions@[i] == (
                    range.id_at(i),
                    self.symbol_resolutions@[range.start_symbol_id.0 + i],
                ),
    {
        let mut resolutions: Vec<(SymbolId, Option<Resolution>)> = Vec::new();
        let count: usize = range.len();
        let mut i: usize = 0;
        while i < count
            invariant
                i <= count,
                count == range.num_symbols,
                range.wf(),
                range.start_symbol_id.0 + range.num_symbols <= self.symbol_resolutions@.len(),
                resolutions@.len() == i,
                forall|k: int|
                    0 <= k < i ==> #[trigger] resolutions@[k] == (
                        range.id_at(k),
                        self.symbol_resolutions@[range.start_symbol_id.0 + k],
                    ),
            decreases count - i,
        {
            let id: SymbolId = range.offset_to_id(i);
            resolutions.push((id, self.symbol_resolutions[id.as_usize()]));
            i = i + 1;
        }
        resolutions
    }

    /// The address of the entry point. `None` if there is none.
    pub fn resolved_entry_symbol_address(&self) -> (result: Result<Option<u64>, EntryError>)
        requires
            self.has_prelude(),
            self.entry_symbol() matches Some(id) ==> self.has_symbol(id),
        ensures
            result == (match self.entry_symbol() {
                None => Ok::<Option<u64>, EntryError>(None),
                Some(id) => match self.symbol_resolutions@[id.0 as int] {
                    None => Err::<Option<u64>, EntryError>(EntryError::NotLoaded),
                    Some(resolution) => if resolution.flags.dynamic && !resolution.flags.absolute {
                        Err::<Option<u64>, EntryError>(EntryError::NotAnAddress)
                    } else {
                        Ok::<Option<u64>, EntryError>(Some(resolution.raw_value))
                    },
                },
            }),
    {
        let symbol_id: SymbolId = match self.prelude_entry() {
            Some(symbol_id) => symbol_id,
            None => {
                return Ok(None);
            },
        };
        match self.local_symbol_resolution(symbol_id) {
            None => Err(EntryError::NotLoaded),
            Some(resolution) => {
                if !resolution.flags().has_link_time_address() && !resolution.is_absolute() {
                    Err(EntryError::NotAnAddress)
                } else {
                    Ok(Some(resolution.value()))
                }
            },
        }
    }

    /// The address of the thread-local data; 0 if there is none.
    pub fn tls_start_address(&self) -> (address: u64)
        ensures
            address == (match self.segment_layouts.tls_layout {
                Some(segment) => segment.mem_offset,
                None => 0,
            }),
    {
        match self.segment_layouts.tls_layout {
            Some(segment) => segment.mem_offset,
            None => 0,
        }
    }

    /// The address of the thread-local data, rounded down to its alignment.
    pub fn tls_start_address_aligned(&self) -> (address: u64)
        ensures
            address == (match self.segment_layouts.tls_layout {
                Some(segment) => alignment::round_down(
                    segment.mem_offset as int,
                    segment.alignment.bytes(),
                ),
                None => 0,
            }),
    {
        match self.segment_layouts.tls_layout {
            Some(segment) => segment.alignment.align_down(segment.mem_offset),
            None => 0,
        }
    }

    /// The address of the end of the thread-local data, rounded up to its alignment, and so that what
    /// follows the data is aligned as an address is. `None` if it cannot be represented.
    pub fn tls_end_address(&self) -> (address: Option<u64>)
        ensures
            match self.segment_layouts.tls_layout {
                None => address == Some(0u64),
                Some(segment) => {
                    let end = alignment::round_up(
                        segment.mem_offset + segment.mem_size,
                        segment.alignment.spec_max(Alignment::of_exp(3)).bytes(),
                    );
                    if end <= u64::MAX {
                        address == Some(end as u64)
                    } else {
                        address is None
                    }
                },
            },
    {
        match self.segment_layouts.tls_layout {
            None => Some(0),
            Some(segment) => {
                let address: Alignment = Alignment::address();
                proof {
                    address.lemma_of_exp();
                }
                let alignment: Alignment = segment.alignment.max(address);
                let value: u64 = alignment.value();
                match segment.mem_offset.checked_add(segment.mem_size) {
                    Some(end) => alignment.checked_align_up(end),
                    None => {
                        proof {
                            alignment::lemma_round_up(
                                segment.mem_offset + segment.mem_size,
                                value as int,
                            );
                        }
                        None
                    },
                }
            },
        }
    }

    /// The address that offsets into the thread-local data count from on AArch64, where something
    /// else precedes the data.
    pub fn tls_start_address_aarch64(&self) -> (address: u64)
        requires
            self.segment_layouts.tls_layout matches Some(segment) ==> segment.mem_offset
                >= AARCH64_TLS_TCB_SIZE,
        ensures
            address == (match self.segment_layouts.tls_layout {
                Some(segment) => alignment::round_down(
                    segment.mem_offset - AARCH64_TLS_TCB_SIZE,
                    segment.alignment.bytes(),
                ),
                None => 0,
            }),
    {
        match self.segment_layouts.tls_layout {
            Some(segment) => segment.alignment.align_down(
                segment.mem_offset - AARCH64_TLS_TCB_SIZE,
            ),
            None => 0,
        }
    }

    /// The address of the first section of thread-local data; 0 if there is none.
    pub open spec fn tlv_start(&self) -> u64 {
        match lowest_tls(
            &self.output_sections,
            self.section_layouts@,
            self.output_sections.count(),
        ) {
            Some(lowest) => lowest,
            None => 0,
        }
    }

    /// The address of the first section of thread-local data; 0 if there is none.
    pub fn tlv_data_start_address(&self) -> (address: u64)
        requires
            self.wf(),
        ensures
            address == self.tlv_start(),
    {
        let mut lowest: Option<u64> = None;
        let count: usize = self.output_sections.num_sections();
        let mut i: usize = 0;
        while i < count
            invariant
                i <= count,
                count == self.output_sections.count(),
                self.wf(),
                lowest == lowest_tls(&self.output_sections, self.section_layouts@, i as int),
            decreases count - i,
        {
            assert(self.output_sections.platform.base_part(self.output_sections.count())
                <= u32::MAX);
            let id: OutputSectionId = OutputSectionId(i as u32);
            if self.output_sections.section_flags(id).tls {
                let address: u64 = self.section_layouts.get(id).mem_offset;
                lowest = match lowest {
                    Some(so_far) if so_far <= address => Some(so_far),
                    _ => Some(address),
                };
            }
            i = i + 1;
        }
        match lowest {
            Some(lowest) => lowest,
            None => 0,
        }
    }

    /// How many range-extension thunks there are. `None` if it is not a 64-bit number.
    pub fn thunk_count(&self) -> (count: Option<u64>)
        ensures
            match count {
                Some(count) => count == sum_of(
                    self.thunk_block_sizes@,
                    self.thunk_block_sizes@.len() as int,
                ),
                None => sum_of(self.thunk_block_sizes@, self.thunk_block_sizes@.len() as int)
                    > u64::MAX,
            },
    {
        let mut count: u64 = 0;
        let mut i: usize = 0;
        while i < self.thunk_block_sizes.len()
            invariant
                i <= self.thunk_block_sizes@.len(),
                count == sum_of(self.thunk_block_sizes@, i as int),
            decreases self.thunk_block_sizes@.len() - i,
        {
            match count.checked_add(self.thunk_block_sizes[i]) {
                Some(next) => {
                    count = next;
                },
                None => {
                    proof {
                        lemma_sum_grows(
                            self.thunk_block_sizes@,
                            i + 1,
                            self.thunk_block_sizes@.len() as int,
                        );
                    }
                    return None;
                },
            }
            i = i + 1;
        }
        Some(count)
    }

    /// The layout of a file.
    pub fn file_layout(&self, file_id: FileId) -> (file: &FileLayout<'data>)
        requires
            file_id.spec_group() < self.group_layouts@.len(),
            file_id.spec_file() < self.group_layouts@[file_id.spec_group()]@.len(),
        ensures
            *file == self.group_layouts@[file_id.spec_group()]@[file_id.spec_file()],
    {
        &self.group_layouts[file_id.group()][file_id.file()]
    }

    /// The address of the global offset table.
    pub fn got_base(&self) -> (address: u64)
        requires
            self.wf(),
            self.got_section_id is Some,
        ensures
            address == self.section_layouts@[(self.got_section_id->0).0 as int].mem_offset,
    {
        match self.got_section_id {
            Some(id) => self.section_layouts.get(id).mem_offset,
            None => 0,
        }
    }

    /// Whether the section of symbol versions is in the output.
    pub fn gnu_version_enabled(&self) -> (enabled: bool)
        requires
            self.wf(),
        ensures
            enabled == (match self.gnu_version_section_id {
                Some(id) => self.section_part_layouts.value(
                    self.output_sections.platform.base_part(id.0 as int) as u32,
                ).file_size > 0,
                None => false,
            }),
    {
        match self.gnu_version_section_id {
            Some(id) => {
                proof {
                    self.output_sections.lemma_numbers_parts(id);
                }
                let part_id: PartId = id.base_part_id(&self.output_sections.platform);
                self.section_part_layouts.get(part_id).file_size > 0
            },
            None => false,
        }
    }

    /// The address of a section.
    pub fn mem_address_of_built_in(&self, section_id: OutputSectionId) -> (address: u64)
        requires
            self.wf(),
            self.output_sections.has(section_id),
        ensures
            address == self.section_layouts@[section_id.0 as int].mem_offset,
    {
        self.section_layouts.get(section_id).mem_offset
    }
}

/// Where a section of an input file is in memory.
pub type MemRange = Option<(u64, u64)>;

/// Where the sections of an object file ended up.
#[derive(Debug)]
pub struct InputFileData<'data> {
    pub path: &'data [u8],
    pub archive_entry: Option<ArchiveEntryInfo<'data>>,
    pub sections: Vec<MemRange>,
    pub temporary: bool,
}

/// What can be written about a layout for other tools.
#[derive(Debug)]
pub struct LayoutData<'data> {
    pub files: Vec<InputFileData<'data>>,
    pub thunk_count: u64,
}

/// The end of a section in memory is not a 64-bit number.
#[derive(Clone, Copy, Debug, PartialEq, Eq, Structural)]
pub struct LayoutOverflow;

/// Whether there is as much of everything as there are sections.
pub open spec fn object_wf<'data>(
    object: ObjectLayout<'data>,
    sections: &OutputSections<'data>,
) -> bool {
    &&& object.section_resolutions@.len() == object.sections@.len()
    &&& object.section_part_ids@.len() == object.sections@.len()
    &&& object.section_sizes@.len() == object.sections@.len()
    &&& forall|i: int|
        0 <= i < object.section_part_ids@.len() ==> sections.platform.section_of(
            (#[trigger] object.section_part_ids@[i]).0 as int,
        ) < sections.count()
}

/// The output section that a part is merged into.
pub open spec fn primary_of_part<'data>(
    sections: &OutputSections<'data>,
    part: PartId,
) -> OutputSectionId {
    sections.primary(OutputSectionId(sections.platform.section_of(part.0 as int) as u32))
}

/// Where a section of an object is in memory. Sections that are not loaded, are not in memory or
/// are empty are nowhere.
pub open spec fn section_range<'data>(
    object: ObjectLayout<'data>,
    sections: &OutputSections<'data>,
    index: int,
) -> Result<MemRange, LayoutOverflow> {
    let primary = primary_of_part(sections, object.section_part_ids@[index]);
    match (object.sections@[index], object.section_sizes@[index]) {
        (SectionSlot::Loaded(section), Some(size)) => if sections.info(
            primary,
        ).section_attributes.alloc && size > 0 {
            let address = object.section_resolutions@[index].address;
            if address + section.size <= u64::MAX {
                Ok(Some((address, (address + section.size) as u64)))
            } else {
                Err(LayoutOverflow)
            }
        } else {
            Ok(None)
        },
        _ => Ok(None),
    }
}

fn find_section_range<'data>(
    object: &ObjectLayout<'data>,
    sections: &OutputSections<'data>,
    index: usize,
) -> (range: Result<MemRange, LayoutOverflow>)
    requires
        sections.wf(),
        object_wf(*object, sections),
        index < object.sections@.len(),
    ensures
        range == section_range(*object, sections, index as int),
{
    let part_id: PartId = object.section_part_ids[index];
    assert(sections.platform.section_of(object.section_part_ids@[index as int].0 as int)
        < sections.count());
    let id: OutputSectionId = part_id.output_section_id(&sections.platform);
    proof {
        sections.lemma_primary(id);
    }
    let primary: OutputSectionId = sections.primary_output_section(id);
    let alloc: bool = sections.section_flags(primary).alloc;
    match (&object.sections[index], object.section_sizes[index]) {
        (SectionSlot::Loaded(section), Some(size)) => {
            if alloc && size > 0 {
                let address: u64 = object.section_resolutions[index].address;
                match address.checked_add(section.size) {
                    Some(end) => Ok(Some((address, end))),
                    None => Err(LayoutOverflow),
                }
            } else {
                Ok(None)
            }
        },
        _ => Ok(None),
    }
}

/// Whether what is written about an object is right.
pub open spec fn describes_object<'data>(
    data: InputFileData<'data>,
    object: ObjectLayout<'data>,
    sections: &OutputSections<'data>,
) -> bool {
    &&& data.path == object.path
    &&& data.archive_entry == object.archive_entry
    &&& data.temporary == object.temporary
    &&& data.sections@.len() == object.sections@.len()
    &&& forall|i: int|
        0 <= i < data.sections@.len() ==> Ok::<MemRange, LayoutOverflow>(
            #[trigger] data.sections@[i],
        ) == section_range(object, sections, i)
}

/// Whether a section of an object ends at an address that cannot be represented.
pub open spec fn overflows<'data>(
    object: ObjectLayout<'data>,
    sections: &OutputSections<'data>,
) -> bool {
    exists|i: int|
        0 <= i < object.sections@.len() && #[trigger] section_range(object, sections, i) is Err
}

/// What can be written about an object.
pub fn object_data<'data>(
    object: &ObjectLayout<'data>,
    sections: &OutputSections<'data>,
) -> (data: Result<InputFileData<'data>, LayoutOverflow>)
    requires
        sections.wf(),
        object_wf(*object, sections),
    ensures
        match data {
            Ok(data) => !overflows(*object, sections) && describes_object(data, *object, sections),
            Err(_) => overflows(*object, sections),
        },
{
    let mut ranges: Vec<MemRange> = Vec::new();
    let count: usize = object.sections.len();
    let mut i: usize = 0;
    while i < count
        invariant
            i <= count,
            count == object.sections@.len(),
            sections.wf(),
            object_wf(*object, sections),
            ranges@.len() == i,
            forall|k: int|
                0 <= k < i ==> Ok::<MemRange, LayoutOverflow>(#[trigger] ranges@[k])
                    == section_range(*object, sections, k),
        decreases count - i,
    {
        match find_section_range(object, sections, i) {
            Ok(range) => {
                ranges.push(range);
            },
            Err(error) => {
                assert(section_range(*object, sections, i as int) is Err);
                return Err(error);
            },
        }
        i = i + 1;
    }
    assert(!overflows(*object, sections)) by {
        assert forall|k: int| 0 <= k < count implies !(#[trigger] section_range(
            *object,
            sections,
            k,
        ) is Err) by {
            assert(Ok::<MemRange, LayoutOverflow>(ranges@[k]) == section_range(
                *object,
                sections,
                k,
            ));
        }
    }
    Ok(
        InputFileData {
            path: object.path,
            archive_entry: object.archive_entry,
            sections: ranges,
            temporary: object.temporary,
        },
    )
}

/// The positions of the object files among the first `count` files of a group.
pub open spec fn object_positions<'data>(
    files: Seq<FileLayout<'data>>,
    group: int,
    count: int,
) -> Seq<(int, int)>
    decreases count,
{
    if count <= 0 {
        Seq::empty()
    } else {
        let before = object_positions(files, group, count - 1);
        if files[count - 1] is Object {
            before.push((group, count - 1))
        } else {
            before
        }
    }
}

/// The positions of the object files of the first `count` groups.
pub open spec fn all_object_positions<'data>(
    groups: Seq<Vec<FileLayout<'data>>>,
    count: int,
) -> Seq<(int, int)>
    decreases count,
{
    if count <= 0 {
        Seq::empty()
    } else {
        all_object_positions(groups, count - 1) + object_positions(
            groups[count - 1]@,
            count - 1,
            groups[count - 1]@.len() as int,
        )
    }
}

impl<'data> Layout<'data> {
    /// Whether there is as much of everything as there are sections, for each object file.
    pub open spec fn objects_wf(&self) -> bool {
        forall|g: int, f: int|
            0 <= g < self.group_layouts@.len() && 0 <= f < self.group_layouts@[g]@.len() ==> (
            #[trigger] self.group_layouts@[g]@[f] matches FileLayout::Object(object) ==> object_wf(
                object,
                &self.output_sections,
            ))
    }

    /// The object file at a position.
    pub open spec fn object_at(&self, position: (int, int)) -> ObjectLayout<'data> {
        self.group_layouts@[position.0]@[position.1]->Object_0
    }

    /// Whether what is written about object files is right.
    pub open spec fn describes_objects(
        &self,
        files: Seq<InputFileData<'data>>,
        positions: Seq<(int, int)>,
    ) -> bool {
        &&& files.len() == positions.len()
        &&& forall|i: int|
            0 <= i < files.len() ==> describes_object(
                #[trigger] files[i],
                self.object_at(positions[i]),
                &self.output_sections,
            )
    }

    /// Whether a section of any object file ends at an address that cannot be represented.
    pub open spec fn any_overflows(&self) -> bool {
        exists|g: int, f: int|
            0 <= g < self.group_layouts@.len() && 0 <= f < self.group_layouts@[g]@.len() && (
            #[trigger] self.group_layouts@[g]@[f]) is Object && overflows(
                self.object_at((g, f)),
                &self.output_sections,
            )
    }

    /// What can be written about the layout for other tools.
    pub fn layout_data(&self) -> (data: Result<LayoutData<'data>, LayoutOverflow>)
        requires
            self.wf(),
            self.objects_wf(),
        ensures
            match data {
                Ok(data) => {
                    &&& self.describes_objects(
                        data.files@,
                        all_object_positions(
                            self.group_layouts@,
                            self.group_layouts@.len() as int,
                        ),
                    )
                    &&& data.thunk_count == sum_of(
                        self.thunk_block_sizes@,
                        self.thunk_block_sizes@.len() as int,
                    )
                },
                Err(_) => self.any_overflows() || sum_of(
                    self.thunk_block_sizes@,
                    self.thunk_block_sizes@.len() as int,
                ) > u64::MAX,
            },
    {
        let thunk_count: u64 = match self.thunk_count() {
            Some(thunk_count) => thunk_count,
            None => {
                return Err(LayoutOverflow);
            },
        };
        let mut files: Vec<InputFileData<'data>> = Vec::new();
        let mut g: usize = 0;
        while g < self.group_layouts.len()
            invariant
                g <= self.group_layouts@.len(),
                self.wf(),
                self.objects_wf(),
                self.describes_objects(
                    files@,
                    all_object_positions(self.group_layouts@, g as int),
                ),
            decreases self.group_layouts@.len() - g,
        {
            let group: &Vec<FileLayout<'data>> = &self.group_layouts[g];
            let ghost before = all_object_positions(self.group_layouts@, g as int);
            assert(before =~= before + object_positions(group@, g as int, 0));
            let mut f: usize = 0;
            while f < group.len()
                invariant
                    f <= group@.len(),
                    g < self.group_layouts@.len(),
                    group@ == self.group_layouts@[g as int]@,
                    self.wf(),
                    self.objects_wf(),
                    self.describes_objects(
                        files@,
                        before + object_positions(group@, g as int, f as int),
                    ),
                decreases group@.len() - f,
            {
                let ghost positions = before + object_positions(group@, g as int, f as int);
                if let FileLayout::Object(object) = &group[f] {
                    assert(self.group_layouts@[g as int]@[f as int] == group@[f as int]);
                    match object_data(object, &self.output_sections) {
                        Ok(data) => {
                            files.push(data);
                            assert(before + object_positions(group@, g as int, f + 1)
                                =~= positions.push((g as int, f as int)));
                            assert(self.object_at((g as int, f as int)) == *object);
                        },
                        Err(error) => {
                            assert(self.object_at((g as int, f as int)) == *object);
                            assert(self.group_layouts@[g as int]@[f as int] is Object);
                            assert(self.any_overflows());
                            return Err(error);
                        },
                    }
                }
                f = f + 1;
            }
            g = g + 1;
        }
        Ok(LayoutData { files, thunk_count })
    }
}

/// Merging the flags of a symbol into those of its definition never loses a flag, and does not
/// change the value.
pub proof fn lemma_merged_resolution<'data>(layout: &Layout<'data>, symbol_id: SymbolId)
    requires
        layout.wf(),
        layout.has_symbol(symbol_id),
        layout.merged_resolution(symbol_id) is Some,
    ensures
        ({
            let merged = layout.merged_resolution(symbol_id)->0;
            let definition = layout.definitions@[symbol_id.0 as int];
            let own = layout.symbol_resolutions@[definition.0 as int]->0;
            &&& layout.symbol_resolutions@[definition.0 as int] is Some
            &&& merged.raw_value == own.raw_value
            &&& merged.got_address == own.got_address
            &&& merged.plt_address == own.plt_address
            &&& own.flags.spec_has_resolution() ==> merged.flags.spec_has_resolution()
        }),
{
}

} // verus!
