//! How much space the headers and tables of a Mach-O file take.
use crate::alignment;
use crate::alignment::Alignment;
use crate::macho_segments;
use crate::macho_segments::{count_sections_for_segment, MachOSegmentDef, SinglePartSectionId};
use crate::output_kind::OutputKind;
use crate::output_section_id::{CommonSinglePartSectionId, PartId};
use crate::output_section_part_map::OutputSectionPartMap;
use crate::output_sections::OutputSections;
use crate::program_segments::ProgramSegmentId;
use crate::record_layout::OutputRecordLayout;
use crate::resolution::GOT_ENTRY_SIZE;
use vstd::prelude::*;

verus! {

/// The size of the file header.
pub const FILE_HEADER_SIZE: u64 = 32;

/// The size of the command for a segment, without its sections.
pub const SEGMENT_COMMAND_SIZE: u64 = 72;

/// The size of the entry of a section in the command for its segment.
pub const SECTION_ENTRY_SIZE: u64 = 80;

/// The size of the command that names the entry point.
pub const ENTRY_POINT_COMMAND_SIZE: u64 = 24;

/// The size of the command that names the dynamic linker, without the name.
pub const DYLINKER_COMMAND_SIZE: u64 = 12;

/// The length of the path of the dynamic linker.
pub const DYLINKER_PATH_LEN: u64 = 13;

/// The size of the command that names a library, without the name.
pub const DYLIB_COMMAND_SIZE: usize = 24;

/// The size of a command that gives the place of a table.
pub const LINKEDIT_DATA_COMMAND_SIZE: u64 = 16;

/// The size of the command that gives the place of the symbol table.
pub const SYMTAB_COMMAND_SIZE: u64 = 24;

/// The size of the command that holds the ID of the file.
pub const UUID_COMMAND_SIZE: u64 = 24;

/// The size of the command that names the platform.
pub const BUILD_VERSION_COMMAND_SIZE: u64 = 24;

/// The alignment of load commands.
pub const MACHO_COMMAND_ALIGNMENT: u64 = 8;

/// The most segments that the table of fixups has room for.
pub const MAX_SEGMENT_COUNT: u64 = 6;

/// The size of the table of fixups without imports and pages: its header, the number of segments
/// and an offset for each of them, and the header of the segment that has pages.
pub const CHAINED_FIXUP_TABLE_BASE_SIZE: u64 = 28 + 4 * (MAX_SEGMENT_COUNT + 1) + 22;

/// The size of an import in the table of fixups, without its name.
pub const CHAINED_FIXUP_IMPORT_SIZE: u64 = 4;

/// The size of the entry of a page in the table of fixups.
pub const CHAINED_FIXUP_PAGE_START_SIZE: u64 = 2;

/// The size of a page.
pub const MACHO_PAGE_SIZE: u64 = 0x4000;

/// The size of the headers of the code signature.
pub const CS_HEADERS_SIZE: u64 = 108;

/// The alignment of the code signature.
pub const CS_SECTION_ALIGNMENT: u64 = 16;

/// The number of bytes that one hash of the code signature covers.
pub const CS_BLOCK_SIZE: u64 = 4096;

/// The size of a hash of the code signature.
pub const CS_HASH_SIZE: u64 = 32;

/// Rounds up to a multiple of a power of two.
fn checked_next_multiple(value: u64, alignment: Alignment) -> (multiple: Option<u64>)
    ensures
        multiple == (if alignment::round_up(value as int, alignment.bytes()) <= u64::MAX {
            Some(alignment::round_up(value as int, alignment.bytes()) as u64)
        } else {
            None::<u64>
        }),
{
    alignment.checked_align_up(value)
}

fn command_alignment() -> (alignment: Alignment)
    ensures
        alignment.bytes() == MACHO_COMMAND_ALIGNMENT,
{
    assert(vstd::arithmetic::power2::pow2(3) == 8) by {
        vstd::arithmetic::power2::lemma2_to64();
    }
    Alignment::address()
}

/// The size of the command that names a library: the command and the name, which ends with a zero.
pub open spec fn dylib_command_size(path: Seq<u8>) -> int {
    alignment::round_up(DYLIB_COMMAND_SIZE + path.len() + 1, MACHO_COMMAND_ALIGNMENT as int)
}

/// The size of the command that names a library. `None` if it cannot be represented.
pub fn load_dylib_command_size(path: &[u8]) -> (size: Option<usize>)
    ensures
        match size {
            Some(size) => size == dylib_command_size(path@),
            None => dylib_command_size(path@) > usize::MAX,
        },
{
    let unaligned: usize = match path.len().checked_add(DYLIB_COMMAND_SIZE + 1) {
        Some(unaligned) => unaligned,
        None => {
            proof {
                alignment::lemma_round_up(
                    DYLIB_COMMAND_SIZE + path@.len() + 1,
                    MACHO_COMMAND_ALIGNMENT as int,
                );
            }
            return None;
        },
    };
    let remainder: usize = unaligned % 8;
    if remainder == 0 {
        Some(unaligned)
    } else {
        (unaligned - remainder).checked_add(8)
    }
}

/// The size of the name of the output in the code signature, which ends with a zero.
pub open spec fn padded_identifier_size(identifier: Seq<u8>) -> int {
    alignment::round_up(identifier.len() as int + 1, CS_SECTION_ALIGNMENT as int)
}

/// The size of the name of the output in the code signature. `None` if it cannot be represented.
pub fn code_signature_padded_identifier_size(identifier: &[u8]) -> (size: Option<u64>)
    ensures
        match size {
            Some(size) => size == padded_identifier_size(identifier@),
            None => padded_identifier_size(identifier@) > u64::MAX,
        },
{
    let length: usize = identifier.len();
    let unaligned: u64 = match (length as u64).checked_add(1) {
        Some(unaligned) => unaligned,
        None => {
            proof {
                alignment::lemma_round_up(
                    identifier@.len() as int + 1,
                    CS_SECTION_ALIGNMENT as int,
                );
            }
            return None;
        },
    };
    let alignment: Alignment = Alignment::from_exponent(4);
    assert(vstd::arithmetic::power2::pow2(4) == 16) by {
        vstd::arithmetic::power2::lemma2_to64();
    }
    checked_next_multiple(unaligned, alignment)
}

/// The commands of the first `count` segments: each has an entry for every section that it has a
/// header for.
pub open spec fn segment_commands<'data>(
    sections: &OutputSections<'data>,
    segments: Seq<MachOSegmentDef>,
    active: Seq<ProgramSegmentId>,
    count: int,
) -> Seq<int>
    decreases count,
{
    if count <= 0 {
        Seq::empty()
    } else {
        segment_commands(sections, segments, active, count - 1).push(
            SEGMENT_COMMAND_SIZE + SECTION_ENTRY_SIZE * macho_segments::headers_in_segment(
                sections,
                segments[active[count - 1].0 as int].name.bytes@,
                sections.count(),
            ),
        )
    }
}

/// The commands that name libraries.
pub open spec fn dylib_commands(names: Seq<&[u8]>) -> Seq<int> {
    Seq::new(names.len(), |i: int| dylib_command_size(names[i]@))
}

/// A command that is there only sometimes.
pub open spec fn optional_command(present: bool, size: u64) -> Seq<int> {
    if present {
        seq![size as int]
    } else {
        Seq::empty()
    }
}

/// The sizes of the commands before those that name libraries: the inaccessible segment, the other
/// segments, the entry point of executables, and the dynamic linker.
pub open spec fn leading_commands<'data>(
    sections: &OutputSections<'data>,
    segments: Seq<MachOSegmentDef>,
    active: Seq<ProgramSegmentId>,
    executable: bool,
) -> Seq<int> {
    seq![SEGMENT_COMMAND_SIZE as int] + segment_commands(
        sections,
        segments,
        active,
        active.len() as int,
    ) + optional_command(executable, ENTRY_POINT_COMMAND_SIZE) + seq![32int]
}

/// The sizes of the commands after those that name libraries: the fixups, the exported symbols, the
/// symbol table, the code signature, the ID of the file, and the platform.
pub open spec fn trailing_commands(exports: bool, platform_version: bool) -> Seq<int> {
    seq![LINKEDIT_DATA_COMMAND_SIZE as int] + optional_command(exports, LINKEDIT_DATA_COMMAND_SIZE)
        + seq![SYMTAB_COMMAND_SIZE as int, LINKEDIT_DATA_COMMAND_SIZE as int, UUID_COMMAND_SIZE as int]
        + optional_command(platform_version, BUILD_VERSION_COMMAND_SIZE)
}

/// The sum of the first `count` sizes.
pub open spec fn total(sizes: Seq<int>, count: int) -> int
    decreases count,
{
    if count <= 0 {
        0
    } else {
        total(sizes, count - 1) + sizes[count - 1]
    }
}

/// Numbers as integers.
pub open spec fn as_ints(sizes: Seq<u64>) -> Seq<int> {
    Seq::new(sizes.len(), |i: int| sizes[i] as int)
}

fn push_command(commands: &mut Vec<u64>, size: u64)
    ensures
        as_ints(final(commands)@) == as_ints(old(commands)@) + seq![size as int],
        final(commands)@.len() == old(commands)@.len() + 1,
{
    commands.push(size);
    assert(as_ints(commands@) =~= as_ints(old(commands)@) + seq![size as int]);
}

fn add_leading_commands<'data>(
    commands: &mut Vec<u64>,
    sections: &OutputSections<'data>,
    segments: &Vec<MachOSegmentDef>,
    active: &Vec<ProgramSegmentId>,
    executable: bool,
)
    requires
        old(commands)@.len() == 0,
        sections.wf(),
        forall|i: int| 0 <= i < active@.len() ==> (#[trigger] active@[i]).0 < segments@.len(),
    ensures
        as_ints(final(commands)@) == leading_commands(sections, segments@, active@, executable),
{
    push_command(commands, SEGMENT_COMMAND_SIZE);
    let ghost first = as_ints(commands@);
    assert(first =~= seq![SEGMENT_COMMAND_SIZE as int]);
    let mut i: usize = 0;
    assert(first =~= first + segment_commands(sections, segments@, active@, 0));
    while i < active.len()
        invariant
            i <= active@.len(),
            sections.wf(),
            forall|i: int| 0 <= i < active@.len() ==> (#[trigger] active@[i]).0 < segments@.len(),
            as_ints(commands@) == first + segment_commands(
                sections,
                segments@,
                active@,
                i as int,
            ),
        decreases active@.len() - i,
    {
        assert(active@[i as int].0 < segments@.len());
        assert(sections.platform.base_part(sections.count()) <= u32::MAX);
        let count: usize = count_sections_for_segment(sections, segments[active[i].0]);
        assert(count <= u32::MAX);
        push_command(commands, SEGMENT_COMMAND_SIZE + SECTION_ENTRY_SIZE * (count as u64));
        assert(as_ints(commands@) =~= first + segment_commands(
            sections,
            segments@,
            active@,
            i + 1,
        ));
        i = i + 1;
    }
    if executable {
        push_command(commands, ENTRY_POINT_COMMAND_SIZE);
    }
    let unaligned: u64 = DYLINKER_COMMAND_SIZE + DYLINKER_PATH_LEN;
    let dylinker: u64 = command_alignment().align_up(unaligned);
    assert(dylinker == 32);
    push_command(commands, dylinker);
    assert(as_ints(commands@) =~= leading_commands(sections, segments@, active@, executable));
}

fn add_trailing_commands(commands: &mut Vec<u64>, exports: bool, platform_version: bool)
    ensures
        as_ints(final(commands)@) == as_ints(old(commands)@) + trailing_commands(
            exports,
            platform_version,
        ),
{
    push_command(commands, LINKEDIT_DATA_COMMAND_SIZE);
    if exports {
        push_command(commands, LINKEDIT_DATA_COMMAND_SIZE);
    }
    push_command(commands, SYMTAB_COMMAND_SIZE);
    push_command(commands, LINKEDIT_DATA_COMMAND_SIZE);
    push_command(commands, UUID_COMMAND_SIZE);
    if platform_version {
        push_command(commands, BUILD_VERSION_COMMAND_SIZE);
    }
    assert(as_ints(commands@) =~= as_ints(old(commands)@) + trailing_commands(
        exports,
        platform_version,
    ));
}

fn sum(sizes: &Vec<u64>) -> (sum: Option<u64>)
    ensures
        match sum {
            Some(sum) => sum == total(as_ints(sizes@), sizes@.len() as int),
            None => total(as_ints(sizes@), sizes@.len() as int) > u64::MAX,
        },
{
    let mut so_far: u64 = 0;
    let mut i: usize = 0;
    while i < sizes.len()
        invariant
            i <= sizes@.len(),
            so_far == total(as_ints(sizes@), i as int),
        decreases sizes@.len() - i,
    {
        match so_far.checked_add(sizes[i]) {
            Some(next) => {
                so_far = next;
            },
            None => {
                proof {
                    lemma_total_grows(sizes@, i + 1, sizes@.len() as int);
                }
                return None;
            },
        }
        i = i + 1;
    }
    Some(so_far)
}

proof fn lemma_total_grows(sizes: Seq<u64>, count: int, all: int)
    requires
        0 <= count <= all <= sizes.len(),
    ensures
        total(as_ints(sizes), count) <= total(as_ints(sizes), all),
    decreases all - count,
{
    if count < all {
        lemma_total_grows(sizes, count, all - 1);
    }
}

/// The sizes of all load commands.
pub open spec fn all_commands<'data>(
    sections: &OutputSections<'data>,
    segments: Seq<MachOSegmentDef>,
    active: Seq<ProgramSegmentId>,
    output_kind: OutputKind,
    library_names: Seq<&[u8]>,
    platform_version: bool,
) -> Seq<int> {
    leading_commands(sections, segments, active, output_kind is StaticExecutable || output_kind is DynamicExecutable) + dylib_commands(
        library_names,
    ) + trailing_commands(output_kind is SharedObject || output_kind is DynamicExecutable, platform_version)
}

/// The size of the headers cannot be represented.
#[derive(Clone, Copy, Debug, PartialEq, Eq, Structural)]
pub struct HeadersTooLarge;

/// Reserves space for the headers. Returns the sizes of the commands that name libraries and the
/// number of commands.
pub fn allocate_header_sizes<'data>(
    sizes: &mut OutputSectionPartMap<u64>,
    active_segment_ids: &Vec<ProgramSegmentId>,
    segments: &Vec<MachOSegmentDef>,
    sections: &OutputSections<'data>,
    output_kind: OutputKind,
    library_names: &Vec<&[u8]>,
    platform_version: bool,
) -> (result: Result<(Vec<usize>, usize), HeadersTooLarge>)
    requires
        old(sizes).wf(),
        sections.wf(),
        forall|i: int|
            0 <= i < active_segment_ids@.len() ==> (#[trigger] active_segment_ids@[i]).0
                < segments@.len(),
    ensures
        final(sizes).wf(),
        final(sizes).dense() == old(sizes).dense(),
        ({
            let commands = all_commands(
                sections,
                segments@,
                active_segment_ids@,
                output_kind,
                library_names@,
                platform_version,
            );
            let command_total = total(commands, commands.len() as int);
            let load_commands = SinglePartSectionId::LoadCommands.part();
            let fits = old(sizes).value(1) + FILE_HEADER_SIZE <= u64::MAX && old(sizes).value(
                load_commands.0,
            ) + command_total <= u64::MAX && (forall|i: int|
                0 <= i < library_names@.len() ==> dylib_command_size(
                    (#[trigger] library_names@[i])@,
                ) <= usize::MAX);
            match result {
                Ok((dylib_sizes, count)) => {
                    &&& fits
                    &&& count == commands.len()
                    &&& dylib_sizes@.len() == library_names@.len()
                    &&& forall|i: int|
                        0 <= i < library_names@.len() ==> #[trigger] dylib_sizes@[i]
                            == dylib_command_size(library_names@[i]@)
                    &&& final(sizes)@ == old(sizes)@.insert(
                        1,
                        (old(sizes).value(1) + FILE_HEADER_SIZE) as u64,
                    ).insert(
                        load_commands.0,
                        (old(sizes).value(load_commands.0) + command_total) as u64,
                    )
                },
                Err(_) => !fits,
            }
        }),
{
    let ghost leading = leading_commands(
        sections,
        segments@,
        active_segment_ids@,
        output_kind is StaticExecutable || output_kind is DynamicExecutable,
    );
    let ghost expected = all_commands(
        sections,
        segments@,
        active_segment_ids@,
        output_kind,
        library_names@,
        platform_version,
    );
    let mut commands: Vec<u64> = Vec::new();
    add_leading_commands(
        &mut commands,
        sections,
        segments,
        active_segment_ids,
        output_kind.is_executable(),
    );
    let mut dylib_sizes: Vec<usize> = Vec::new();
    let ghost names = dylib_commands(library_names@);
    let mut i: usize = 0;
    assert(leading =~= leading + names.take(0));
    while i < library_names.len()
        invariant
            i <= library_names@.len(),
            sizes@ == old(sizes)@,
            sizes.wf(),
            sizes.dense() == old(sizes).dense(),
            names == dylib_commands(library_names@),
            dylib_sizes@.len() == i,
            forall|k: int|
                0 <= k < i ==> #[trigger] dylib_sizes@[k] == dylib_command_size(
                    library_names@[k]@,
                ),
            as_ints(commands@) == leading + names.take(i as int),
        decreases library_names@.len() - i,
    {
        match load_dylib_command_size(library_names[i]) {
            Some(size) => {
                dylib_sizes.push(size);
                push_command(&mut commands, size as u64);
                assert(as_ints(commands@) =~= leading + names.take(i + 1));
            },
            None => {
                assert(dylib_command_size(library_names@[i as int]@) > usize::MAX);
                return Err(HeadersTooLarge);
            },
        }
        i = i + 1;
    }
    assert(names.take(library_names@.len() as int) =~= names);
    add_trailing_commands(&mut commands, output_kind.needs_dynsym(), platform_version);
    assert(as_ints(commands@) =~= expected);
    let ghost command_total = total(expected, expected.len() as int);
    assert forall|i: int| 0 <= i < library_names@.len() implies dylib_command_size(
        (#[trigger] library_names@[i])@,
    ) <= usize::MAX by {
        assert(dylib_sizes@[i] == dylib_command_size(library_names@[i]@));
    }
    assert(as_ints(commands@).len() == commands@.len());
    let command_sizes: u64 = match sum(&commands) {
        Some(command_sizes) => command_sizes,
        None => {
            return Err(HeadersTooLarge);
        },
    };
    let load_commands: PartId = SinglePartSectionId::LoadCommands.part_id();
    let header: PartId = CommonSinglePartSectionId::FileHeader.part_id();
    if sizes.get(header).checked_add(FILE_HEADER_SIZE).is_none() || sizes.get(
        load_commands,
    ).checked_add(command_sizes).is_none() {
        return Err(HeadersTooLarge);
    }
    sizes.increment(header, FILE_HEADER_SIZE);
    sizes.increment(load_commands, command_sizes);
    Ok((dylib_sizes, commands.len()))
}

/// The number of pages that a number of bytes takes up.
pub open spec fn pages_of(size: int) -> int {
    (size + MACHO_PAGE_SIZE - 1) / MACHO_PAGE_SIZE as int
}

/// The size of the table of fixups: an entry and a name for each import, and an entry for each page
/// of the global offset table, which has an entry for each import.
pub open spec fn fixup_table_size(name_lengths: Seq<int>) -> int {
    let count = name_lengths.len() as int;
    CHAINED_FIXUP_TABLE_BASE_SIZE + total(name_lengths, count) + count * (CHAINED_FIXUP_IMPORT_SIZE
        + 1) + CHAINED_FIXUP_PAGE_START_SIZE * pages_of(count * GOT_ENTRY_SIZE)
}

/// The number of pages that a number of bytes takes up.
fn pages(size: u128) -> (pages: u128)
    ensures
        pages == pages_of(size as int),
        pages <= size,
{
    if size % MACHO_PAGE_SIZE as u128 == 0 {
        size / MACHO_PAGE_SIZE as u128
    } else {
        size / MACHO_PAGE_SIZE as u128 + 1
    }
}

/// Computes the size of the table of fixups. `None` if it cannot be represented.
pub fn compute_fixup_table_size(name_lengths: &Vec<u64>) -> (size: Option<u64>)
    ensures
        match size {
            Some(size) => size == fixup_table_size(as_ints(name_lengths@)),
            None => fixup_table_size(as_ints(name_lengths@)) > u64::MAX,
        },
{
    let length: usize = name_lengths.len();
    let count: u64 = length as u64;
    let page_count: u128 = pages(count as u128 * GOT_ENTRY_SIZE as u128);
    let names: u64 = match sum(name_lengths) {
        Some(names) => names,
        None => {
            return None;
        },
    };
    let parts: u128 = CHAINED_FIXUP_TABLE_BASE_SIZE as u128 + names as u128 + (count as u128) * 5
        + page_count * 2;
    if parts <= u64::MAX as u128 {
        Some(parts as u64)
    } else {
        None
    }
}

/// The tables cannot be represented.
#[derive(Clone, Copy, Debug, PartialEq, Eq, Structural)]
pub struct TablesTooLarge;

/// Reserves space for the table of fixups and the table of exported symbols. `trie_size` is the size
/// of the latter if all addresses are as large as they can be.
pub fn finalise_sizes_epilogue(
    mem_sizes: &mut OutputSectionPartMap<u64>,
    name_lengths: &Vec<u64>,
    trie_size: u64,
) -> (result: Result<(), TablesTooLarge>)
    requires
        old(mem_sizes).wf(),
    ensures
        final(mem_sizes).wf(),
        final(mem_sizes).dense() == old(mem_sizes).dense(),
        ({
            let table = alignment::round_up(fixup_table_size(as_ints(name_lengths@)), 8);
            let fixups = SinglePartSectionId::ChainedFixupTable.part().0;
            let exports = SinglePartSectionId::ExportsTrie.part().0;
            let fits = old(mem_sizes).value(fixups) + table <= u64::MAX && old(mem_sizes).value(
                exports,
            ) + trie_size <= u64::MAX;
            match result {
                Ok(_) => fits && final(mem_sizes)@ == old(mem_sizes)@.insert(
                    fixups,
                    (old(mem_sizes).value(fixups) + table) as u64,
                ).insert(exports, (old(mem_sizes).value(exports) + trie_size) as u64),
                Err(_) => !fits,
            }
        }),
{
    proof {
        alignment::lemma_round_up(fixup_table_size(as_ints(name_lengths@)), 8);
    }
    let unaligned: u64 = match compute_fixup_table_size(name_lengths) {
        Some(unaligned) => unaligned,
        None => {
            return Err(TablesTooLarge);
        },
    };
    let table: u64 = match checked_next_multiple(unaligned, command_alignment()) {
        Some(table) => table,
        None => {
            return Err(TablesTooLarge);
        },
    };
    let fixups: PartId = SinglePartSectionId::ChainedFixupTable.part_id();
    let exports: PartId = SinglePartSectionId::ExportsTrie.part_id();
    if mem_sizes.get(fixups).checked_add(table).is_none() || mem_sizes.get(exports).checked_add(
        trie_size,
    ).is_none() {
        return Err(TablesTooLarge);
    }
    mem_sizes.increment(fixups, table);
    mem_sizes.increment(exports, trie_size);
    Ok(())
}

/// Reserves space for the empty string that the string table starts with, and for the parts of the
/// code signature that do not depend on the size of the file.
pub fn allocate_prelude(mem_sizes: &mut OutputSectionPartMap<u64>, identifier: &[u8]) -> (result:
    Result<(), TablesTooLarge>)
    requires
        old(mem_sizes).wf(),
    ensures
        final(mem_sizes).wf(),
        final(mem_sizes).dense() == old(mem_sizes).dense(),
        ({
            let signature_size = CS_HEADERS_SIZE + padded_identifier_size(identifier@);
            let strings = SinglePartSectionId::Strtab.part().0;
            let signature = SinglePartSectionId::CodeSignature.part().0;
            let fits = old(mem_sizes).value(strings) + 1 <= u64::MAX && old(mem_sizes).value(
                signature,
            ) + signature_size <= u64::MAX;
            match result {
                Ok(_) => fits && final(mem_sizes)@ == old(mem_sizes)@.insert(
                    strings,
                    (old(mem_sizes).value(strings) + 1) as u64,
                ).insert(signature, (old(mem_sizes).value(signature) + signature_size) as u64),
                Err(_) => !fits,
            }
        }),
{
    let name_size: u64 = match code_signature_padded_identifier_size(identifier) {
        Some(name_size) => name_size,
        None => {
            return Err(TablesTooLarge);
        },
    };
    let signature_size: u64 = match name_size.checked_add(CS_HEADERS_SIZE) {
        Some(signature_size) => signature_size,
        None => {
            return Err(TablesTooLarge);
        },
    };
    let strings: PartId = SinglePartSectionId::Strtab.part_id();
    let signature: PartId = SinglePartSectionId::CodeSignature.part_id();
    if mem_sizes.get(strings).checked_add(1).is_none() || mem_sizes.get(signature).checked_add(
        signature_size,
    ).is_none() {
        return Err(TablesTooLarge);
    }
    mem_sizes.increment(strings, 1);
    mem_sizes.increment(signature, signature_size);
    Ok(())
}

/// Why the last part cannot be extended.
#[derive(Clone, Copy, Debug, PartialEq, Eq, Structural)]
pub enum ExtendError {
    /// The code signature is not the last part.
    NotCodeSignature,
    Overflow,
}

/// The size of the hashes of a file: one for each block before the code signature.
pub open spec fn hashes_size(file_offset: int) -> int {
    (file_offset + CS_BLOCK_SIZE - 1) / CS_BLOCK_SIZE as int * CS_HASH_SIZE
}

/// How much larger the last part is than was known before layout.
pub fn last_part_size_to_extend(record: &OutputRecordLayout, last_part_id: PartId) -> (result:
    Result<u64, ExtendError>)
    ensures
        result == (if last_part_id != SinglePartSectionId::CodeSignature.part() {
            Err::<u64, ExtendError>(ExtendError::NotCodeSignature)
        } else if hashes_size(record.file_offset as int) > u64::MAX {
            Err::<u64, ExtendError>(ExtendError::Overflow)
        } else {
            Ok::<u64, ExtendError>(hashes_size(record.file_offset as int) as u64)
        }),
{
    if last_part_id.0 != SinglePartSectionId::CodeSignature.part_id().0 {
        return Err(ExtendError::NotCodeSignature);
    }
    let blocks: u64 = if record.file_offset % CS_BLOCK_SIZE == 0 {
        record.file_offset / CS_BLOCK_SIZE
    } else {
        record.file_offset / CS_BLOCK_SIZE + 1
    };
    assert(blocks == (record.file_offset + CS_BLOCK_SIZE - 1) / CS_BLOCK_SIZE as int);
    match blocks.checked_mul(CS_HASH_SIZE) {
        Some(size) => Ok(size),
        None => Err(ExtendError::Overflow),
    }
}

/// The hashes of the code signature cover every byte before it, and no block is covered in vain.
pub proof fn lemma_hashes_cover_file(file_offset: int)
    requires
        0 <= file_offset,
    ensures
        hashes_size(file_offset) % CS_HASH_SIZE as int == 0,
        hashes_size(file_offset) / CS_HASH_SIZE as int * CS_BLOCK_SIZE >= file_offset,
        hashes_size(file_offset) / CS_HASH_SIZE as int * CS_BLOCK_SIZE < file_offset
            + CS_BLOCK_SIZE,
{
}

} // verus!
