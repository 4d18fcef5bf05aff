//! What holds of headers, tables, segments and imports of Mach-O files.
use crate::file_id::FileId;
use crate::macho_attributes;
use crate::macho_imports;
use crate::macho_imports::{GroupFile, ImportedSymbolWithResolution, SegmentSection};
use crate::macho_order;
use crate::macho_segments;
use crate::macho_segments::{MachOSegmentDef, SinglePartSectionId};
use crate::macho_sizes;
use crate::output_kind::OutputKind;
use crate::output_order::OrderEvent;
use crate::output_section_id::OutputSectionId;
use crate::output_sections::{OutputSections, SectionKind};
use crate::placement_laws;
use crate::program_segments::ProgramSegmentId;
use crate::record_layout::OutputRecordLayout;
use crate::resolution::Resolution;
use crate::section_classes::{CustomSectionIds, OrphanClass};
use crate::stable_order;
use crate::symbol_id::SymbolId;
use vstd::prelude::*;

verus! {

/// The command that names a library has room for 24 bytes, the name and a zero. Its size is the next
/// multiple of 8.
pub proof fn lemma_library_command_holds_name(path: Seq<u8>)
    ensures
        placement_laws::is_next_multiple(
            macho_sizes::dylib_command_size(path),
            24 + path.len() as int + 1,
            8,
        ),
{
    crate::alignment::lemma_round_up(24 + path.len() as int + 1, 8);
}

/// The code signature has room for the name of the output and a zero. The name is padded to the next
/// multiple of 16.
pub proof fn lemma_signature_holds_identifier(identifier: Seq<u8>)
    ensures
        placement_laws::is_next_multiple(
            macho_sizes::padded_identifier_size(identifier),
            identifier.len() as int + 1,
            16,
        ),
{
    crate::alignment::lemma_round_up(identifier.len() as int + 1, 16);
}

proof fn lemma_total_of_prefix(a: Seq<int>, b: Seq<int>, count: int)
    requires
        0 <= count <= a.len(),
    ensures
        macho_sizes::total(a + b, count) == macho_sizes::total(a, count),
    decreases count,
{
    if count > 0 {
        lemma_total_of_prefix(a, b, count - 1);
    }
}

proof fn lemma_total_of_both(a: Seq<int>, b: Seq<int>, count: int)
    requires
        0 <= count <= b.len(),
    ensures
        macho_sizes::total(a + b, a.len() + count) == macho_sizes::total(a, a.len() as int)
            + macho_sizes::total(b, count),
    decreases count,
{
    if count > 0 {
        lemma_total_of_both(a, b, count - 1);
    } else {
        lemma_total_of_prefix(a, b, a.len() as int);
    }
}

spec fn sum(sizes: Seq<int>) -> int {
    macho_sizes::total(sizes, sizes.len() as int)
}

/// The load commands take up 184 bytes, 72 for each segment and 80 for each header of a section, and
/// what the names of the libraries need. Executables have 24 more for the entry point, outputs that
/// export symbols 16 more for those, and a platform version takes 24 more.
pub proof fn lemma_load_commands_have_room<'data>(
    sections: &OutputSections<'data>,
    segments: Seq<MachOSegmentDef>,
    active: Seq<ProgramSegmentId>,
    output_kind: OutputKind,
    library_names: Seq<&[u8]>,
    platform_version: bool,
)
    ensures
        ({
            let commands = macho_sizes::all_commands(
                sections,
                segments,
                active,
                output_kind,
                library_names,
                platform_version,
            );
            let of_segments = macho_sizes::segment_commands(
                sections,
                segments,
                active,
                active.len() as int,
            );
            let of_libraries = macho_sizes::dylib_commands(library_names);
            let entry_point = output_kind is StaticExecutable || output_kind is DynamicExecutable;
            let exports = output_kind is SharedObject || output_kind is DynamicExecutable;
            &&& macho_sizes::total(commands, commands.len() as int) == 184 + macho_sizes::total(
                of_segments,
                active.len() as int,
            ) + macho_sizes::total(of_libraries, library_names.len() as int) + (if entry_point {
                24int
            } else {
                0
            }) + (if exports {
                16int
            } else {
                0
            }) + (if platform_version {
                24int
            } else {
                0
            })
            &&& commands.len() == 6 + active.len() + library_names.len() + (if entry_point {
                1int
            } else {
                0
            }) + (if exports {
                1int
            } else {
                0
            }) + (if platform_version {
                1int
            } else {
                0
            })
        }),
{
    reveal_with_fuel(macho_sizes::total, 4);
    let of_segments = macho_sizes::segment_commands(
        sections,
        segments,
        active,
        active.len() as int,
    );
    lemma_segment_commands(sections, segments, active, active.len() as int);
    let entry_point = output_kind is StaticExecutable || output_kind is DynamicExecutable;
    let exports = output_kind is SharedObject || output_kind is DynamicExecutable;
    let first = seq![72int];
    let entry = macho_sizes::optional_command(entry_point, 24);
    let loader = seq![32int];
    lemma_total_of_both(first, of_segments, of_segments.len() as int);
    let a = first + of_segments;
    lemma_total_of_both(a, entry, entry.len() as int);
    let b = a + entry;
    lemma_total_of_both(b, loader, 1);
    let leading = b + loader;
    assert(leading == macho_sizes::leading_commands(sections, segments, active, entry_point));
    let libraries = macho_sizes::dylib_commands(library_names);
    lemma_total_of_both(leading, libraries, libraries.len() as int);
    let fixups = seq![16int];
    let exported = macho_sizes::optional_command(exports, 16);
    let tables = seq![24int, 16int, 24int];
    let version = macho_sizes::optional_command(platform_version, 24);
    lemma_total_of_both(fixups, exported, exported.len() as int);
    let c = fixups + exported;
    lemma_total_of_both(c, tables, 3);
    let d = c + tables;
    lemma_total_of_both(d, version, version.len() as int);
    let trailing = d + version;
    assert(trailing == macho_sizes::trailing_commands(exports, platform_version));
    lemma_total_of_both(leading + libraries, trailing, trailing.len() as int);
    assert(sum(fixups) == 16);
    assert(sum(loader) == 32);
    assert(sum(first) == 72);
    assert(sum(tables) == 64);
    assert(sum(entry) == if entry_point {
        24int
    } else {
        0
    });
    assert(sum(exported) == if exports {
        16int
    } else {
        0
    });
    assert(sum(version) == if platform_version {
        24int
    } else {
        0
    });
}

proof fn lemma_segment_commands<'data>(
    sections: &OutputSections<'data>,
    segments: Seq<MachOSegmentDef>,
    active: Seq<ProgramSegmentId>,
    count: int,
)
    requires
        0 <= count,
    ensures
        macho_sizes::segment_commands(sections, segments, active, count).len() == count,
        forall|i: int|
            0 <= i < count ==> #[trigger] macho_sizes::segment_commands(
                sections,
                segments,
                active,
                count,
            )[i] == 72 + 80 * macho_segments::headers_in_segment(
                sections,
                segments[active[i].0 as int].name.bytes@,
                sections.count(),
            ),
    decreases count,
{
    if count > 0 {
        lemma_segment_commands(sections, segments, active, count - 1);
    }
}

/// The command of a segment has an entry for each section that has a header in the segment.
pub proof fn lemma_segment_command_lists_sections<'data>(
    sections: &OutputSections<'data>,
    segments: Seq<MachOSegmentDef>,
    active: Seq<ProgramSegmentId>,
    i: int,
)
    requires
        0 <= i < active.len(),
    ensures
        macho_sizes::segment_commands(sections, segments, active, active.len() as int)[i] == 72 + 80
            * macho_segments::headers_in_segment(
            sections,
            segments[active[i].0 as int].name.bytes@,
            sections.count(),
        ),
{
    lemma_segment_commands(sections, segments, active, active.len() as int);
}

/// Each import adds its name, a zero and 4 bytes to the table of fixups, and 2 bytes whenever its
/// address starts another page.
pub proof fn lemma_import_adds_to_fixups(lengths: Seq<int>, length: int)
    ensures
        macho_sizes::fixup_table_size(lengths.push(length)) - macho_sizes::fixup_table_size(lengths)
            == length + 5 + if lengths.len() % 2048 == 0 {
            2int
        } else {
            0
        },
        macho_sizes::fixup_table_size(Seq::empty()) == 78,
{
    let count = lengths.len() as int;
    lemma_total_of_both(lengths, seq![length], 1);
    assert(lengths.push(length) =~= lengths + seq![length]);
    reveal_with_fuel(macho_sizes::total, 2);
    assert(macho_sizes::pages_of((count + 1) * 8) - macho_sizes::pages_of(count * 8) == if count
        % 2048 == 0 {
        1int
    } else {
        0
    });
    assert(macho_sizes::pages_of(0) == 0);
    assert((count + 1) * 5 == count * 5 + 5) by (nonlinear_arith);
}

/// The code signature holds a hash of 32 bytes for every 4096 bytes before it, and for what is left.
pub proof fn lemma_signature_hashes_all_blocks(file_offset: int)
    requires
        file_offset >= 0,
    ensures
        macho_sizes::hashes_size(file_offset) % 32 == 0,
        ({
            let blocks = macho_sizes::hashes_size(file_offset) / 32;
            blocks * 4096 >= file_offset && (blocks - 1) * 4096 < file_offset
        }),
{
}

/// No segment can be written and executed. The text can be executed, and the tables of the linker can
/// only be read. The text comes first and the tables of the linker last.
pub proof fn lemma_segments_are_not_writable_and_executable(name: Seq<u8>)
    ensures
        ({
            let prot = MachOSegmentDef::prot_of(name);
            let text = name == macho_attributes::text_name();
            let linkedit = name == macho_attributes::linkedit_name();
            &&& prot & 1 == 1
            &&& prot & 4 == 4 <==> text
            &&& prot & 2 == 2 <==> !text && !linkedit
            &&& prot <= 7
            &&& text ==> MachOSegmentDef::position_of(name) < MachOSegmentDef::position_of(
                macho_attributes::data_const_name(),
            ) < MachOSegmentDef::position_of(macho_attributes::data_name())
                < MachOSegmentDef::position_of(macho_attributes::linkedit_name())
            &&& !text ==> MachOSegmentDef::position_of(name) > MachOSegmentDef::position_of(
                macho_attributes::text_name(),
            )
            &&& !linkedit ==> MachOSegmentDef::position_of(name) < MachOSegmentDef::position_of(
                macho_attributes::linkedit_name(),
            )
        }),
{
    assert(5u32 & 1 == 1 && 5u32 & 4 == 4 && 5u32 & 2 != 2 && 1u32 & 1 == 1 && 1u32 & 4 != 4 && 1u32
        & 2 != 2 && 3u32 & 1 == 1 && 3u32 & 4 != 4 && 3u32 & 2 == 2) by (bit_vector);
    lemma_segment_names_differ();
}

proof fn lemma_segment_names_differ()
    ensures
        macho_attributes::text_name() != macho_attributes::linkedit_name(),
        macho_attributes::text_name() != macho_attributes::data_name(),
        macho_attributes::text_name() != macho_attributes::data_const_name(),
        macho_attributes::linkedit_name() != macho_attributes::data_name(),
        macho_attributes::linkedit_name() != macho_attributes::data_const_name(),
        macho_attributes::data_name() != macho_attributes::data_const_name(),
{
    let text = macho_attributes::text_name();
    let linkedit = macho_attributes::linkedit_name();
    let data = macho_attributes::data_name();
    let data_const = macho_attributes::data_const_name();
    assert(text[2] != linkedit[2]);
    assert(text[2] != data[2]);
    assert(text[2] != data_const[2]);
    assert(linkedit[2] != data[2]);
    assert(linkedit[2] != data_const[2]);
    assert(data[6] != data_const[6]);
}

/// The headers are in the text segment, and the tables of the linker in the segment for them. Other
/// sections are where they ask to be. No section is in two segments.
pub proof fn lemma_section_is_in_one_segment(
    first: Seq<u8>,
    second: Seq<u8>,
    kind: SectionKind,
    id: OutputSectionId,
)
    ensures
        macho_segments::included(first, kind, id) && macho_segments::included(second, kind, id)
            ==> first == second,
        id.0 == 1 || id.0 == 7 ==> macho_segments::included(macho_attributes::text_name(), kind, id),
        id.0 == 2 || id.0 == 5 || id.0 == 8 || id.0 == 9 || id.0 == 10 ==> macho_segments::included(
            macho_attributes::linkedit_name(),
            kind,
            id,
        ),
        id.0 > 10 || id.0 == 3 || id.0 == 4 ==> (macho_segments::included(first, kind, id) <==> (
        kind matches SectionKind::Primary(identity) && (identity.format_specific matches Some(
            bytes,
        ) && bytes@ == first))),
{
}

/// The sections of the linker are different ones, and none of them is a section of an input.
pub proof fn lemma_sections_of_linker_differ(a: SinglePartSectionId, b: SinglePartSectionId)
    ensures
        a.id() == b.id() ==> a == b,
        a.part() == b.part() ==> a == b,
        a.part().0 == a.id().0,
        1 < a.id().0 < macho_segments::spec_platform_sections().num_single_part_sections,
{
}

proof fn lemma_libraries_in(files: Seq<GroupFile>, count: int, i: int)
    requires
        0 <= i < count <= files.len(),
    ensures
        macho_imports::library_of(files[i]) matches Some(library) ==> {
            &&& library.state.loaded ==> macho_imports::libraries_in(files, count).contains(
                library.file_id,
            )
            &&& forall|k: int|
                0 <= k < library.state.imported_symbols@.len() ==> macho_imports::symbols_in(
                    files,
                    count,
                ).contains(#[trigger] library.state.imported_symbols@[k])
        },
    decreases count,
{
    if macho_imports::library_of(files[i]) is Some {
        let library = macho_imports::library_of(files[i])->0;
        let id = library.file_id;
        let before = macho_imports::libraries_in(files, count - 1);
        let after = macho_imports::libraries_in(files, count);
        let earlier = macho_imports::symbols_in(files, count - 1);
        let symbols = macho_imports::symbols_in(files, count);
        if i < count - 1 {
            lemma_libraries_in(files, count - 1, i);
            if library.state.loaded {
                let k = choose|k: int| 0 <= k < before.len() && before[k] == id;
                assert(after[k] == id);
            }
            assert forall|k: int| 0 <= k < library.state.imported_symbols@.len() implies symbols.contains(
                #[trigger] library.state.imported_symbols@[k],
            ) by {
                let symbol = library.state.imported_symbols@[k];
                let j = choose|j: int| 0 <= j < earlier.len() && earlier[j] == symbol;
                assert(symbols[j] == symbol);
            }
        } else {
            if library.state.loaded {
                assert(after[before.len() as int] == id);
            }
            assert forall|k: int| 0 <= k < library.state.imported_symbols@.len() implies symbols.contains(
                #[trigger] library.state.imported_symbols@[k],
            ) by {
                assert(symbols[earlier.len() + k] == library.state.imported_symbols@[k]);
            }
        }
    }
}

proof fn lemma_only_libraries_in(files: Seq<GroupFile>, count: int, id: FileId)
    requires
        0 <= count <= files.len(),
        macho_imports::libraries_in(files, count).contains(id),
    ensures
        exists|i: int|
            0 <= i < count && macho_imports::library_of(#[trigger] files[i]) is Some && (
            macho_imports::library_of(files[i])->0).file_id == id && (macho_imports::library_of(
                files[i],
            )->0).state.loaded,
    decreases count,
{
    let all = macho_imports::libraries_in(files, count);
    if count > 0 {
        let before = macho_imports::libraries_in(files, count - 1);
        let k = choose|k: int| 0 <= k < all.len() && all[k] == id;
        let file = files[count - 1];
        if k < before.len() {
            assert(before[k] == id);
            lemma_only_libraries_in(files, count - 1, id);
            let i = choose|i: int|
                0 <= i < count - 1 && macho_imports::library_of(#[trigger] files[i]) is Some && (
                macho_imports::library_of(files[i])->0).file_id == id && (macho_imports::library_of(
                    files[i],
                )->0).state.loaded;
            assert(macho_imports::library_of(files[i]) is Some);
        } else {
            assert(macho_imports::library_of(files[count - 1]) is Some);
        }
    }
}

/// The output names each library that it loads, and takes all symbols that are imported from each
/// library, of whatever group.
pub proof fn lemma_libraries_are_named(groups: Seq<Vec<GroupFile>>, count: int, g: int, i: int)
    requires
        0 <= g < count <= groups.len(),
        0 <= i < groups[g]@.len(),
    ensures
        macho_imports::library_of(groups[g]@[i]) matches Some(library) ==> {
            &&& library.state.loaded ==> macho_imports::all_libraries(groups, count).contains(
                library.file_id,
            )
            &&& forall|k: int|
                0 <= k < library.state.imported_symbols@.len() ==> macho_imports::all_symbols(
                    groups,
                    count,
                ).contains(#[trigger] library.state.imported_symbols@[k])
        },
    decreases count,
{
    if macho_imports::library_of(groups[g]@[i]) is Some {
        let library = macho_imports::library_of(groups[g]@[i])->0;
        let before = macho_imports::all_libraries(groups, count - 1);
        let earlier = macho_imports::all_symbols(groups, count - 1);
        let last = groups[count - 1]@;
        let own = macho_imports::libraries_in(last, last.len() as int);
        let own_symbols = macho_imports::symbols_in(last, last.len() as int);
        let all = macho_imports::all_libraries(groups, count);
        let symbols = macho_imports::all_symbols(groups, count);
        if g < count - 1 {
            lemma_libraries_are_named(groups, count - 1, g, i);
            if library.state.loaded {
                let k = choose|k: int| 0 <= k < before.len() && before[k] == library.file_id;
                assert(all[k] == library.file_id);
            }
        } else {
            lemma_libraries_in(last, last.len() as int, i);
            if library.state.loaded {
                let k = choose|k: int| 0 <= k < own.len() && own[k] == library.file_id;
                assert(all[before.len() + k] == library.file_id);
            }
        }
        assert forall|k: int| 0 <= k < library.state.imported_symbols@.len() implies symbols.contains(
            #[trigger] library.state.imported_symbols@[k],
        ) by {
            let symbol = library.state.imported_symbols@[k];
            if g < count - 1 {
                let j = choose|j: int| 0 <= j < earlier.len() && earlier[j] == symbol;
                assert(symbols[j] == symbol);
            } else {
                let j = choose|j: int| 0 <= j < own_symbols.len() && own_symbols[j] == symbol;
                assert(symbols[earlier.len() + j] == symbol);
            }
        }
    }
}

/// The output names no library of a group but those that are loaded.
pub proof fn lemma_unused_libraries_are_not_named(files: Seq<GroupFile>, id: FileId)
    requires
        forall|i: int|
            0 <= i < files.len() && macho_imports::library_of(#[trigger] files[i]) is Some && (
            macho_imports::library_of(files[i])->0).file_id == id ==> !(macho_imports::library_of(
                files[i],
            )->0).state.loaded,
    ensures
        !macho_imports::libraries_in(files, files.len() as int).contains(id),
{
    if macho_imports::libraries_in(files, files.len() as int).contains(id) {
        lemma_only_libraries_in(files, files.len() as int, id);
    }
}

/// A library has the number of its first place among those that the output names.
pub proof fn lemma_libraries_are_numbered(files: Seq<FileId>, file: FileId, from: int)
    requires
        0 <= from <= files.len(),
    ensures
        match macho_imports::position_from(files, file, from) {
            Some(position) => {
                &&& from <= position < files.len()
                &&& files[position] == file
                &&& forall|i: int| from <= i < position ==> #[trigger] files[i] != file
            },
            None => forall|i: int| from <= i < files.len() ==> #[trigger] files[i] != file,
        },
    decreases files.len() - from,
{
    if from < files.len() {
        lemma_libraries_are_numbered(files, file, from + 1);
    }
}

/// Each imported symbol has the addresses of its own resolution.
pub proof fn lemma_imports_have_own_entries(
    symbols: Seq<SymbolId>,
    resolutions: Seq<Option<Resolution>>,
    count: int,
)
    requires
        0 <= count <= symbols.len(),
    ensures
        match macho_imports::all_entries(symbols, resolutions, count) {
            Ok(entries) => {
                &&& entries.len() == count
                &&& forall|i: int|
                    0 <= i < count ==> {
                        let resolution = resolutions[symbols[i].0 as int];
                        &&& (#[trigger] entries[i]).symbol_id == symbols[i]
                        &&& resolution is Some
                        &&& (resolution->0).got_address == Some(entries[i].got_address)
                        &&& (resolution->0).plt_address == entries[i].plt_address
                    }
            },
            Err(_) => exists|i: int|
                0 <= i < count && (resolutions[(#[trigger] symbols[i]).0 as int] is None || (
                resolutions[symbols[i].0 as int]->0).got_address is None),
        },
    decreases count,
{
    if count > 0 {
        lemma_imports_have_own_entries(symbols, resolutions, count - 1);
        let symbol = symbols[count - 1];
        if macho_imports::all_entries(symbols, resolutions, count - 1) is Err {
            let i = choose|i: int|
                0 <= i < count - 1 && (resolutions[(#[trigger] symbols[i]).0 as int] is None || (
                resolutions[symbols[i].0 as int]->0).got_address is None);
            assert(symbols[i].0 == symbols[i].0);
        } else if macho_imports::entries_of(symbol, resolutions) is Err {
            assert(symbols[count - 1] == symbol);
        }
    }
}

/// Imports are sorted by the address of their entries, and none is lost or doubled.
pub proof fn lemma_imports_are_sorted(
    sorted: Seq<ImportedSymbolWithResolution>,
    entries: Seq<ImportedSymbolWithResolution>,
)
    requires
        macho_imports::sorted_by_got(sorted, entries),
    ensures
        sorted.len() == entries.len(),
        forall|i: int, j: int|
            0 <= i < j < sorted.len() ==> (#[trigger] sorted[i]).got_address <= (
            #[trigger] sorted[j]).got_address,
        forall|i: int| 0 <= i < entries.len() ==> sorted.contains(#[trigger] entries[i]),
        forall|i: int| 0 <= i < sorted.len() ==> entries.contains(#[trigger] sorted[i]),
{
    let keys = macho_imports::got_keys(entries);
    let order = choose|order: Seq<usize>| #[trigger]
        stable_order::is_stable_order(order, keys) && sorted == Seq::new(
            entries.len(),
            |i: int| entries[order[i] as int],
        );
    assert forall|i: int, j: int| 0 <= i < j < sorted.len() implies (
    #[trigger] sorted[i]).got_address <= (#[trigger] sorted[j]).got_address by {
        assert(stable_order::comes_before(keys, order[i] as int, order[j] as int));
    }
    assert forall|i: int| 0 <= i < entries.len() implies sorted.contains(#[trigger] entries[i]) by {
        assert(stable_order::listed(order, i));
        let k = choose|k: int| 0 <= k < order.len() && #[trigger] order[k] == i;
        assert(sorted[k] == entries[i]);
    }
    assert forall|i: int| 0 <= i < sorted.len() implies entries.contains(#[trigger] sorted[i]) by {
        assert(order[i] < keys.len());
        assert(entries[order[i] as int] == sorted[i]);
    }
}

/// The sections that a segment lists have headers in it, under their own names, and are where layout
/// has put them.
pub proof fn lemma_segment_lists_its_sections<'data>(
    events: Seq<OrderEvent<'data>>,
    sections: &OutputSections<'data>,
    layouts: Seq<OutputRecordLayout>,
    segment_id: ProgramSegmentId,
    segment: Seq<u8>,
    inside: bool,
    from: int,
)
    requires
        0 <= from <= events.len(),
    ensures
        ({
            let found = macho_imports::segment_sections_from(
                events,
                sections,
                layouts,
                segment_id,
                segment,
                inside,
                from,
            );
            forall|i: int|
                0 <= i < found.len() ==> {
                    let section: SegmentSection<'data> = #[trigger] found[i];
                    &&& section.layout == layouts[section.id.0 as int]
                    &&& macho_segments::included(
                        segment,
                        sections.info(section.id).kind,
                        section.id,
                    )
                    &&& sections.info(section.id).kind matches SectionKind::Primary(identity)
                        && identity.name == section.name && identity.format_specific is Some
                    &&& sections.index_in_output(section.id.0 as int) is Some
                }
        }),
    decreases events.len() - from,
{
    if from < events.len() {
        lemma_segment_lists_its_sections(
            events,
            sections,
            layouts,
            segment_id,
            segment,
            inside,
            from + 1,
        );
        lemma_segment_lists_its_sections(
            events,
            sections,
            layouts,
            segment_id,
            segment,
            true,
            from + 1,
        );
    }
}

/// A section with a header that is emitted while the segment is open is listed.
pub proof fn lemma_sections_in_segment_are_listed<'data>(
    events: Seq<OrderEvent<'data>>,
    sections: &OutputSections<'data>,
    layouts: Seq<OutputRecordLayout>,
    segment_id: ProgramSegmentId,
    segment: Seq<u8>,
    from: int,
    at: int,
)
    requires
        0 <= from <= at < events.len(),
        events[at] is Section,
        macho_segments::header_name(sections, events[at]->Section_0, segment) is Some,
        forall|j: int|
            from <= j < at ==> #[trigger] events[j] != OrderEvent::<'data>::SegmentEnd(segment_id),
    ensures
        exists|i: int|
            0 <= i < macho_imports::segment_sections_from(
                events,
                sections,
                layouts,
                segment_id,
                segment,
                true,
                from,
            ).len() && (#[trigger] macho_imports::segment_sections_from(
                events,
                sections,
                layouts,
                segment_id,
                segment,
                true,
                from,
            )[i]).id == events[at]->Section_0,
    decreases at - from,
{
    let found = macho_imports::segment_sections_from(
        events,
        sections,
        layouts,
        segment_id,
        segment,
        true,
        from,
    );
    let id = events[at]->Section_0;
    if from == at {
        assert(found[0].id == id);
    } else {
        assert(events[from] != OrderEvent::<'data>::SegmentEnd(segment_id));
        lemma_sections_in_segment_are_listed(
            events,
            sections,
            layouts,
            segment_id,
            segment,
            from + 1,
            at,
        );
        let rest = macho_imports::segment_sections_from(
            events,
            sections,
            layouts,
            segment_id,
            segment,
            true,
            from + 1,
        );
        let i = choose|i: int| 0 <= i < rest.len() && (#[trigger] rest[i]).id == id;
        assert(found == rest || found[i + 1] == rest[i]);
        if found == rest {
            assert(found[i].id == id);
        } else {
            assert(found[i + 1].id == id);
        }
    }
}

/// The file header comes first and the load commands second, and the code signature is the last of all:
/// nothing follows what it covers.
pub proof fn lemma_headers_first_signature_last<'data>(
    sections: &OutputSections<'data>,
    custom: &CustomSectionIds,
)
    ensures
        ({
            let list = macho_order::section_list(sections, custom);
            &&& list.len() >= 9
            &&& list[0].0 == 1
            &&& list[1] == SinglePartSectionId::LoadCommands.id()
            &&& list.last() == SinglePartSectionId::CodeSignature.id()
        }),
{
}

/// In the text segment, code comes before stubs, stubs before data that is only read, and that before
/// the addresses that the dynamic linker fills in. No section is left out.
pub proof fn lemma_text_is_ordered<'data>(
    sections: &OutputSections<'data>,
    custom: &CustomSectionIds,
    i: int,
    j: int,
)
    requires
        ({
            let text = macho_attributes::text_name();
            &&& 0 <= i < macho_order::class_in_segment(
                sections,
                custom,
                OrphanClass::Exec,
                text,
            ).len()
            &&& 0 <= j < macho_order::class_in_segment(
                sections,
                custom,
                OrphanClass::Ro,
                text,
            ).len()
        }),
    ensures
        ({
            let text = macho_attributes::text_name();
            let list = macho_order::text_sections(sections, custom);
            let code = macho_order::class_in_segment(sections, custom, OrphanClass::Exec, text);
            let read = macho_order::class_in_segment(sections, custom, OrphanClass::Ro, text);
            &&& list.len() == code.len() + read.len() + 4
            &&& list[2 + i] == code[i]
            &&& list[2 + code.len() as int] == SinglePartSectionId::PltGot.id()
            &&& list[3 + code.len() + j] == read[j]
            &&& list.last() == SinglePartSectionId::Got.id()
        }),
{
}

/// In a segment of data, what has no contents in the file comes after everything that has. Thread-local
/// data stands together.
pub proof fn lemma_zero_filled_data_comes_last<'data>(
    sections: &OutputSections<'data>,
    custom: &CustomSectionIds,
    segment: Seq<u8>,
    i: int,
)
    requires
        0 <= i < macho_order::class_in_segment(sections, custom, OrphanClass::Bss, segment).len(),
    ensures
        ({
            let list = macho_order::data_sections(sections, custom, segment, true);
            let code = macho_order::class_in_segment(sections, custom, OrphanClass::Exec, segment);
            let read = macho_order::class_in_segment(sections, custom, OrphanClass::Ro, segment);
            let data = macho_order::class_in_segment(sections, custom, OrphanClass::Data, segment);
            let local = macho_order::class_in_segment(
                sections,
                custom,
                OrphanClass::Tdata,
                segment,
            );
            let zeroed = macho_order::class_in_segment(
                sections,
                custom,
                OrphanClass::Tbss,
                segment,
            );
            let bss = macho_order::class_in_segment(sections, custom, OrphanClass::Bss, segment);
            let front = code.len() + read.len() + data.len();
            &&& list.len() == front + local.len() + zeroed.len() + bss.len()
            &&& list[list.len() - bss.len() + i] == bss[i]
            &&& list.subrange(front as int, (front + local.len()) as int) == local
            &&& list.subrange(
                (front + local.len()) as int,
                (front + local.len() + zeroed.len()) as int,
            ) == zeroed
            &&& list.subrange((code.len() + read.len()) as int, front as int) == data
        }),
{
    let list = macho_order::data_sections(sections, custom, segment, true);
    let code = macho_order::class_in_segment(sections, custom, OrphanClass::Exec, segment);
    let read = macho_order::class_in_segment(sections, custom, OrphanClass::Ro, segment);
    let data = macho_order::class_in_segment(sections, custom, OrphanClass::Data, segment);
    let local = macho_order::class_in_segment(sections, custom, OrphanClass::Tdata, segment);
    let zeroed = macho_order::class_in_segment(sections, custom, OrphanClass::Tbss, segment);
    let front = code.len() + read.len() + data.len();
    assert(list.subrange(front as int, (front + local.len()) as int) =~= local);
    assert(list.subrange(
        (front + local.len()) as int,
        (front + local.len() + zeroed.len()) as int,
    ) =~= zeroed);
    assert(list.subrange((code.len() + read.len()) as int, front as int) =~= data);
}

proof fn lemma_in_segment<'data>(
    sections: &OutputSections<'data>,
    ids: Seq<OutputSectionId>,
    segment: Seq<u8>,
    count: int,
    id: OutputSectionId,
)
    requires
        0 <= count <= ids.len(),
    ensures
        macho_order::in_segment(sections, ids, segment, count).contains(id) <==> ids.take(
            count,
        ).contains(id) && macho_segments::segment_of(sections.info(id).kind) == Some(segment),
    decreases count,
{
    let after = macho_order::in_segment(sections, ids, segment, count);
    if count > 0 {
        lemma_in_segment(sections, ids, segment, count - 1, id);
        let before = macho_order::in_segment(sections, ids, segment, count - 1);
        let last = ids[count - 1];
        assert(ids.take(count) =~= ids.take(count - 1).push(last));
        let all = ids.take(count);
        let front = ids.take(count - 1);
        assert(all.contains(id) <==> front.contains(id) || id == last) by {
            if all.contains(id) {
                let k = choose|k: int| 0 <= k < all.len() && all[k] == id;
                if k < front.len() {
                    assert(front[k] == id);
                }
            }
            if front.contains(id) {
                let k = choose|k: int| 0 <= k < front.len() && front[k] == id;
                assert(all[k] == id);
            }
            if id == last {
                assert(all[count - 1] == id);
            }
        }
        if after != before {
            assert(after == before.push(last));
            assert(after.contains(id) <==> before.contains(id) || id == last) by {
                if after.contains(id) {
                    let k = choose|k: int| 0 <= k < after.len() && after[k] == id;
                    if k < before.len() {
                        assert(before[k] == id);
                    }
                }
                if before.contains(id) {
                    let k = choose|k: int| 0 <= k < before.len() && before[k] == id;
                    assert(after[k] == id);
                }
                if id == last {
                    assert(after[before.len() as int] == id);
                }
            }
        }
    }
}

/// The sections of a segment are those that ask for it, all of them and no others.
pub proof fn lemma_segment_holds_sections_that_ask<'data>(
    sections: &OutputSections<'data>,
    ids: Seq<OutputSectionId>,
    segment: Seq<u8>,
    id: OutputSectionId,
)
    ensures
        macho_order::in_segment(sections, ids, segment, ids.len() as int).contains(id)
            <==> ids.contains(id) && (sections.info(id).kind matches SectionKind::Primary(identity)
            && (identity.format_specific matches Some(bytes) && bytes@ == segment)),
{
    lemma_in_segment(sections, ids, segment, ids.len() as int, id);
    assert(ids.take(ids.len() as int) =~= ids);
}

/// The text segment comes first and the tables of the linker last. Segments that inputs bring stand
/// between them, each once, and none of them is one of the usual segments.
pub proof fn lemma_segments_of_inputs<'data>(sections: &OutputSections<'data>, count: int)
    requires
        0 <= count,
    ensures
        ({
            let others = macho_order::other_segments(sections, count);
            &&& others.no_duplicates()
            &&& forall|i: int|
                0 <= i < others.len() ==> !macho_order::is_known_segment(#[trigger] others[i])
            &&& forall|i: int|
                0 <= i < count ==> (macho_segments::segment_of(
                    (#[trigger] sections.infos()[i]).kind,
                ) matches Some(name) ==> macho_order::is_known_segment(name) || others.contains(
                    name,
                ))
        }),
        macho_order::segment_names(sections)[0] == macho_attributes::text_name(),
        macho_order::segment_names(sections).last() == macho_attributes::linkedit_name(),
        macho_order::segment_names(sections).len() == macho_order::other_segments(
            sections,
            sections.count(),
        ).len() + 4,
    decreases count,
{
    if count > 0 {
        lemma_segments_of_inputs(sections, count - 1);
        let before = macho_order::other_segments(sections, count - 1);
        let after = macho_order::other_segments(sections, count);
        let last = sections.infos()[count - 1];
        assert forall|i: int| 0 <= i < count implies (macho_segments::segment_of(
            (#[trigger] sections.infos()[i]).kind,
        ) matches Some(name) ==> macho_order::is_known_segment(name) || after.contains(name)) by {
            if macho_segments::segment_of(sections.infos()[i].kind) is Some {
                let name = macho_segments::segment_of(sections.infos()[i].kind)->0;
                if before.contains(name) {
                    let k = choose|k: int| 0 <= k < before.len() && before[k] == name;
                    assert(after[k] == name);
                } else if i == count - 1 && !macho_order::is_known_segment(name) {
                    assert(after[before.len() as int] == name);
                }
            }
        }
    }
}

/// A segment lists what comes after its start, and nothing that comes before it.
pub proof fn lemma_segment_lists_from_its_start<'data>(
    events: Seq<OrderEvent<'data>>,
    sections: &OutputSections<'data>,
    layouts: Seq<OutputRecordLayout>,
    segment_id: ProgramSegmentId,
    segment: Seq<u8>,
    start: int,
    from: int,
)
    requires
        0 <= from <= start < events.len(),
        events[start] == OrderEvent::<'data>::SegmentStart(segment_id),
        forall|j: int|
            from <= j < start ==> #[trigger] events[j] != OrderEvent::<'data>::SegmentStart(
                segment_id,
            ),
    ensures
        macho_imports::segment_sections_from(
            events,
            sections,
            layouts,
            segment_id,
            segment,
            false,
            from,
        ) == macho_imports::segment_sections_from(
            events,
            sections,
            layouts,
            segment_id,
            segment,
            true,
            start + 1,
        ),
    decreases start - from,
{
    if from < start {
        assert(events[from] != OrderEvent::<'data>::SegmentStart(segment_id));
        lemma_segment_lists_from_its_start(
            events,
            sections,
            layouts,
            segment_id,
            segment,
            start,
            from + 1,
        );
    }
}

/// A segment lists nothing after its end.
pub proof fn lemma_segment_lists_up_to_its_end<'data>(
    events: Seq<OrderEvent<'data>>,
    sections: &OutputSections<'data>,
    layouts: Seq<OutputRecordLayout>,
    segment_id: ProgramSegmentId,
    segment: Seq<u8>,
    end: int,
)
    requires
        0 <= end < events.len(),
        events[end] == OrderEvent::<'data>::SegmentEnd(segment_id),
    ensures
        macho_imports::segment_sections_from(
            events,
            sections,
            layouts,
            segment_id,
            segment,
            true,
            end,
        ).len() == 0,
{
}

/// A section has a header in a segment if it is in the output, belongs to a segment, and is in that
/// one. Each such section counts once.
pub proof fn lemma_headers_are_counted<'data>(
    sections: &OutputSections<'data>,
    segment: Seq<u8>,
    count: int,
)
    requires
        0 < count <= sections.count(),
        sections.count() <= u32::MAX,
    ensures
        ({
            let id = OutputSectionId((count - 1) as u32);
            let counted = macho_segments::headers_in_segment(sections, segment, count)
                - macho_segments::headers_in_segment(sections, segment, count - 1);
            let has_header = (sections.infos()[count - 1].kind matches SectionKind::Primary(identity)
                && identity.format_specific is Some) && sections.index_in_output(count - 1) is Some
                && macho_segments::included(segment, sections.infos()[count - 1].kind, id);
            &&& has_header ==> counted == 1
            &&& !has_header ==> counted == 0
        }),
        macho_segments::headers_in_segment(sections, segment, 0) == 0,
{
}

} // verus!
