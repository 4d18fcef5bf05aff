//! What is written into the sections of a Mach-O file.
use crate::input_sections::Section;
use crate::layout_queries::Layout;
use crate::macho_attributes::{
    S_THREAD_LOCAL_REGULAR, S_THREAD_LOCAL_VARIABLES, S_THREAD_LOCAL_ZEROFILL,
};
use crate::macho_imports::ImportedSymbolWithResolution;
use crate::output_section_id::{OutputSectionId, PartId};
use crate::output_sections::OutputSections;
use crate::resolution::{Resolution, SectionResolution, GOT_ENTRY_SIZE, PLT_ENTRY_SIZE};
use crate::symbol_id::{SymbolId, SymbolIdRange};
use crate::value_flags;
use crate::value_flags::{resolution_flags, RelocationKind, ValueFlags};
use vstd::bytes::*;
use vstd::prelude::*;

verus! {

/// The type of relocations of branches.
pub const ARM64_RELOC_BRANCH26: u8 = 2;

/// The type of relocations that load the offset of a thread-local variable.
pub const ARM64_RELOC_TLVP_LOAD_PAGEOFF12: u8 = 9;

/// The flag of an entry that the dynamic linker fills in.
pub const CHAINED_BIND: u64 = 0x8000_0000_0000_0000;

/// The distance to the next entry, in steps of four bytes, at its place in an entry.
pub const CHAINED_NEXT_ENTRY: u64 = 0x10_0000_0000_0000;

/// A byte string with other bytes written at an offset.
pub open spec fn overwritten(buffer: Seq<u8>, offset: int, bytes: Seq<u8>) -> Seq<u8> {
    Seq::new(
        buffer.len(),
        |i: int|
            if offset <= i < offset + bytes.len() {
                bytes[i - offset]
            } else {
                buffer[i]
            },
    )
}

fn overwrite(buffer: &mut [u8], offset: usize, bytes: &[u8])
    requires
        offset + bytes@.len() <= old(buffer)@.len(),
    ensures
        final(buffer)@ == overwritten(old(buffer)@, offset as int, bytes@),
{
    let ghost before = buffer@;
    let length: usize = buffer.len();
    let mut i: usize = 0;
    while i < bytes.len()
        invariant
            i <= bytes@.len(),
            before == old(buffer)@,
            length == before.len(),
            buffer@.len() == before.len(),
            offset + bytes@.len() <= before.len(),
            forall|k: int| 0 <= k < i ==> buffer@[offset + k] == bytes@[k],
            forall|k: int|
                0 <= k < before.len() && !(offset <= k < offset + i) ==> buffer@[k] == before[k],
        decreases bytes@.len() - i,
    {
        let byte: u8 = bytes[i];
        buffer[offset + i] = byte;
        i = i + 1;
    }
    assert forall|k: int| 0 <= k < before.len() implies buffer@[k] == overwritten(
        before,
        offset as int,
        bytes@,
    )[k] by {
        if offset <= k < offset + bytes@.len() {
            assert(buffer@[offset + (k - offset)] == bytes@[k - offset]);
        }
    }
    assert(buffer@ =~= overwritten(before, offset as int, bytes@));
}

/// An entry before the dynamic linker has filled it in: which import it is for, and whether another
/// entry follows.
pub open spec fn chained_entry(index: u64, last: bool) -> u64 {
    CHAINED_BIND | (if last {
        0u64
    } else {
        CHAINED_NEXT_ENTRY
    }) | index
}

/// The entries after the first `count` imports are written.
pub open spec fn got_written(
    got: Seq<u8>,
    imports: Seq<ImportedSymbolWithResolution>,
    start: u64,
    count: int,
) -> Seq<u8>
    decreases count,
{
    if count <= 0 {
        got
    } else {
        overwritten(
            got_written(got, imports, start, count - 1),
            imports[count - 1].got_address - start,
            spec_u64_to_le_bytes(
                chained_entry((count - 1) as u64, count == imports.len()),
            ),
        )
    }
}

/// How many imports come before the first one, from `from` on, whose entry would be before its
/// section.
pub open spec fn entries_in_section(
    imports: Seq<ImportedSymbolWithResolution>,
    start: u64,
    from: int,
) -> int
    decreases imports.len() - from,
{
    if from >= imports.len() {
        imports.len() as int
    } else if imports[from].got_address < start {
        from
    } else {
        entries_in_section(imports, start, from + 1)
    }
}

/// An entry is at an address before its section.
#[derive(Clone, Copy, Debug, PartialEq, Eq, Structural)]
pub struct EntryBeforeSection;

/// Writes the entries of the imports, which are ordered by address. They form a chain that the
/// dynamic linker follows. If an entry is not in its section, those before it are written.
pub fn write_got_entries(
    imports: &Vec<ImportedSymbolWithResolution>,
    got_start: u64,
    got: &mut [u8],
) -> (result: Result<(), EntryBeforeSection>)
    requires
        forall|i: int|
            0 <= i < imports@.len() && (#[trigger] imports@[i]).got_address >= got_start
                ==> imports@[i].got_address - got_start + GOT_ENTRY_SIZE <= old(got)@.len(),
    ensures
        result is Ok <==> forall|i: int|
            0 <= i < imports@.len() ==> (#[trigger] imports@[i]).got_address >= got_start,
        result is Ok ==> entries_in_section(imports@, got_start, 0) == imports@.len(),
        final(got)@ == got_written(
            old(got)@,
            imports@,
            got_start,
            entries_in_section(imports@, got_start, 0),
        ),
        final(got)@.len() == old(got)@.len(),
{
    let ghost before = got@;
    let count: usize = imports.len();
    let mut i: usize = 0;
    while i < count
        invariant
            i <= count,
            count == imports@.len(),
            before == old(got)@,
            got@.len() == before.len(),
            forall|i: int|
                0 <= i < imports@.len() && (#[trigger] imports@[i]).got_address >= got_start
                    ==> imports@[i].got_address - got_start + GOT_ENTRY_SIZE <= before.len(),
            forall|k: int| 0 <= k < i ==> (#[trigger] imports@[k]).got_address >= got_start,
            entries_in_section(imports@, got_start, 0) == entries_in_section(
                imports@,
                got_start,
                i as int,
            ),
            got@ == got_written(before, imports@, got_start, i as int),
        decreases count - i,
    {
        let address: u64 = imports[i].got_address;
        if address < got_start {
            assert(imports@[i as int].got_address < got_start);
            return Err(EntryBeforeSection);
        }
        let length: usize = got.len();
        assert(address - got_start + GOT_ENTRY_SIZE <= length);
        let offset: usize = (address - got_start) as usize;
        let next: u64 = if i == count - 1 {
            0
        } else {
            CHAINED_NEXT_ENTRY
        };
        let entry: u64 = CHAINED_BIND | next | (i as u64);
        let bytes: Vec<u8> = u64_to_le_bytes(entry);
        proof {
            lemma_auto_spec_u64_to_from_le_bytes();
            assert(bytes@.len() == 8);
        }
        overwrite(got, offset, bytes.as_slice());
        i = i + 1;
    }
    Ok(())
}

/// The parts of an entry can be told apart: it is one for the dynamic linker to fill in, it says for
/// which import, and it says how far away the next one is.
pub proof fn lemma_chained_entry(index: u64, last: bool)
    requires
        index < 0x100_0000,
    ensures
        chained_entry(index, last) >> 63 == 1,
        chained_entry(index, last) & 0xff_ffff == index,
        (chained_entry(index, last) >> 51) & 0xfff == (if last {
            0u64
        } else {
            2u64
        }),
{
    assert((0x8000_0000_0000_0000u64 | 0u64 | index) >> 63 == 1 && (0x8000_0000_0000_0000u64 | 0u64
        | index) & 0xff_ffff == index && ((0x8000_0000_0000_0000u64 | 0u64 | index) >> 51) & 0xfff
        == 0) by (bit_vector)
        requires
            index < 0x100_0000,
    ;
    assert((0x8000_0000_0000_0000u64 | 0x10_0000_0000_0000u64 | index) >> 63 == 1 && (
    0x8000_0000_0000_0000u64 | 0x10_0000_0000_0000u64 | index) & 0xff_ffff == index && ((
    0x8000_0000_0000_0000u64 | 0x10_0000_0000_0000u64 | index) >> 51) & 0xfff == 2) by (bit_vector)
        requires
            index < 0x100_0000,
    ;
}

/// Every entry can be read back if no two entries overlap.
pub proof fn lemma_got_entries_readable(
    got: Seq<u8>,
    imports: Seq<ImportedSymbolWithResolution>,
    start: u64,
    count: int,
    index: int,
)
    requires
        0 <= index < count <= imports.len(),
        imports.len() <= u64::MAX,
        forall|i: int|
            0 <= i < imports.len() ==> start <= (#[trigger] imports[i]).got_address
                && imports[i].got_address - start + GOT_ENTRY_SIZE <= got.len(),
        forall|i: int, j: int|
            0 <= i < j < imports.len() ==> (#[trigger] imports[i]).got_address + GOT_ENTRY_SIZE
                <= (#[trigger] imports[j]).got_address,
    ensures
        got_written(got, imports, start, count).len() == got.len(),
        spec_u64_from_le_bytes(
            got_written(got, imports, start, count).subrange(
                imports[index].got_address - start,
                imports[index].got_address - start + 8,
            ),
        ) == chained_entry(index as u64, index + 1 == imports.len()),
    decreases count,
{
    lemma_auto_spec_u64_to_from_le_bytes();
    lemma_got_len(got, imports, start, count);
    lemma_got_len(got, imports, start, count - 1);
    let written = got_written(got, imports, start, count);
    let before = got_written(got, imports, start, count - 1);
    let offset = imports[index].got_address - start;
    let entry = chained_entry((count - 1) as u64, count == imports.len());
    if index == count - 1 {
        assert(written.subrange(offset, offset + 8) =~= spec_u64_to_le_bytes(entry));
    } else {
        lemma_got_entries_readable(got, imports, start, count - 1, index);
        assert(imports[index].got_address + GOT_ENTRY_SIZE <= imports[count - 1].got_address);
        assert(written.subrange(offset, offset + 8) =~= before.subrange(offset, offset + 8));
    }
}

proof fn lemma_got_len(
    got: Seq<u8>,
    imports: Seq<ImportedSymbolWithResolution>,
    start: u64,
    count: int,
)
    ensures
        got_written(got, imports, start, count).len() == got.len(),
    decreases count,
{
    if count > 0 {
        lemma_got_len(got, imports, start, count - 1);
    }
}

/// A stub that jumps to an import.
#[derive(Clone, Copy, Debug, PartialEq, Eq, Structural)]
pub struct PltEntry {
    /// Where in the section the stub is.
    pub offset: u64,
    pub got_address: u64,
    pub plt_address: u64,
}

/// The stubs of the first `count` imports. Imports that are not called have none.
pub open spec fn stubs(
    imports: Seq<ImportedSymbolWithResolution>,
    start: u64,
    count: int,
) -> Result<Seq<PltEntry>, EntryBeforeSection>
    decreases count,
{
    if count <= 0 {
        Ok(Seq::empty())
    } else {
        match stubs(imports, start, count - 1) {
            Err(error) => Err(error),
            Ok(before) => match imports[count - 1].plt_address {
                None => Ok(before),
                Some(plt_address) => if plt_address < start {
                    Err(EntryBeforeSection)
                } else {
                    Ok(
                        before.push(
                            PltEntry {
                                offset: (plt_address - start) as u64,
                                got_address: imports[count - 1].got_address,
                                plt_address,
                            },
                        ),
                    )
                },
            },
        }
    }
}

proof fn lemma_stubs_error(
    imports: Seq<ImportedSymbolWithResolution>,
    start: u64,
    count: int,
    all: int,
)
    requires
        0 <= count <= all,
        stubs(imports, start, count) is Err,
    ensures
        stubs(imports, start, all) is Err,
    decreases all - count,
{
    if count < all {
        lemma_stubs_error(imports, start, count + 1, all);
    }
}

/// The stubs to write. Each takes up as much space as any other.
pub fn plt_entries(imports: &Vec<ImportedSymbolWithResolution>, plt_start: u64) -> (result: Result<
    Vec<PltEntry>,
    EntryBeforeSection,
>)
    ensures
        match (result, stubs(imports@, plt_start, imports@.len() as int)) {
            (Ok(entries), Ok(expected)) => entries@ == expected,
            (Err(_), Err(_)) => true,
            _ => false,
        },
{
    let mut entries: Vec<PltEntry> = Vec::new();
    let mut i: usize = 0;
    while i < imports.len()
        invariant
            i <= imports@.len(),
            stubs(imports@, plt_start, i as int) == Ok::<_, EntryBeforeSection>(entries@),
        decreases imports@.len() - i,
    {
        if let Some(plt_address) = imports[i].plt_address {
            if plt_address < plt_start {
                proof {
                    lemma_stubs_error(imports@, plt_start, i + 1, imports@.len() as int);
                }
                return Err(EntryBeforeSection);
            }
            entries.push(
                PltEntry {
                    offset: plt_address - plt_start,
                    got_address: imports[i].got_address,
                    plt_address,
                },
            );
        }
        i = i + 1;
    }
    Ok(entries)
}

/// Whether stubs fit into their section.
pub fn plt_entries_fit(entries: &Vec<PltEntry>, section_len: u64) -> (fit: bool)
    ensures
        fit == forall|i: int|
            0 <= i < entries@.len() ==> (#[trigger] entries@[i]).offset + PLT_ENTRY_SIZE
                <= section_len,
{
    let mut i: usize = 0;
    while i < entries.len()
        invariant
            i <= entries@.len(),
            forall|k: int|
                0 <= k < i ==> (#[trigger] entries@[k]).offset + PLT_ENTRY_SIZE <= section_len,
        decreases entries@.len() - i,
    {
        match entries[i].offset.checked_add(PLT_ENTRY_SIZE) {
            Some(end) => {
                if end > section_len {
                    assert(entries@[i as int].offset + PLT_ENTRY_SIZE > section_len);
                    return false;
                }
            },
            None => {
                assert(entries@[i as int].offset + PLT_ENTRY_SIZE > section_len);
                return false;
            },
        }
        i = i + 1;
    }
    true
}

/// Why the contents of a section are not written.
#[derive(Clone, Copy, Debug, PartialEq, Eq, Structural)]
pub enum WriteSectionError {
    /// Less space is left than the section needs.
    InsufficientSpace { needed: u64, remaining: u64 },
    /// The space that the section needs is not a 64-bit number.
    Overflow,
    /// The section is larger than its space.
    TooLarge,
}

/// Where the contents of a section were written: the range in its part. Sections without data in
/// the file have none.
pub type WrittenRange = Option<(usize, usize)>;

/// What writing the contents of a section does to its part: the bytes of the part, where the
/// contents are, and the position after the space that the section takes.
pub open spec fn raw_written<'data>(
    part: Seq<u8>,
    position: usize,
    section: Section,
    contents: Seq<u8>,
    part_id: PartId,
    packed: bool,
    sections: &OutputSections<'data>,
) -> Result<(Seq<u8>, WrittenRange, usize), WriteSectionError> {
    let id = OutputSectionId(sections.platform.section_of(part_id.0 as int) as u32);
    if sections.info(id).section_attributes.no_bits {
        Ok((part, None, position))
    } else {
        match crate::input_sections::capacity_of(section, part_id, packed, sections) {
            None => Err(WriteSectionError::Overflow),
            Some(needed) => if part.len() - position < needed {
                Err(
                    WriteSectionError::InsufficientSpace {
                        needed,
                        remaining: (part.len() - position) as u64,
                    },
                )
            } else if contents.len() > needed {
                Err(WriteSectionError::TooLarge)
            } else {
                Ok(
                    (
                        overwritten(
                            part,
                            position as int,
                            contents + Seq::new((needed - contents.len()) as nat, |i: int| 0u8),
                        ),
                        Some((position, (position + contents.len()) as usize)),
                        (position + needed) as usize,
                    ),
                )
            },
        }
    }
}

/// Writes the contents of a section at the given position of its part, followed by zeros up to the
/// end of the space that the section takes. Returns the position after it too.
pub fn write_section_raw<'data>(
    part: &mut [u8],
    position: usize,
    section: Section,
    contents: &[u8],
    part_id: PartId,
    packed: bool,
    sections: &OutputSections<'data>,
) -> (result: Result<(WrittenRange, usize), WriteSectionError>)
    requires
        position <= old(part)@.len(),
        sections.wf(),
        sections.has(OutputSectionId(sections.platform.section_of(part_id.0 as int) as u32)),
        sections.platform.section_of(part_id.0 as int) <= u32::MAX,
    ensures
        final(part)@.len() == old(part)@.len(),
        match raw_written(
            old(part)@,
            position,
            section,
            contents@,
            part_id,
            packed,
            sections,
        ) {
            Ok((bytes, range, end)) => result == Ok::<(WrittenRange, usize), WriteSectionError>(
                (range, end),
            ) && final(part)@ == bytes && end <= bytes.len(),
            Err(error) => result == Err::<(WrittenRange, usize), WriteSectionError>(error)
                && final(part)@ == old(part)@,
        },
{
    let id: OutputSectionId = part_id.output_section_id(&sections.platform);
    if !sections.has_data_in_file(id) {
        return Ok((None, position));
    }
    let needed: u64 = match section.capacity(part_id, packed, sections) {
        Some(needed) => needed,
        None => {
            return Err(WriteSectionError::Overflow);
        },
    };
    let length: usize = part.len();
    let remaining: usize = length - position;
    if (remaining as u64) < needed {
        return Err(
            WriteSectionError::InsufficientSpace { needed, remaining: remaining as u64 },
        );
    }
    let contents_len: usize = contents.len();
    if contents_len as u64 > needed {
        return Err(WriteSectionError::TooLarge);
    }
    let ghost before = part@;
    overwrite(part, position, contents);
    let end: usize = position + needed as usize;
    let mut i: usize = position + contents_len;
    while i < end
        invariant
            position + contents@.len() <= i <= end,
            end <= before.len(),
            part@.len() == before.len(),
            forall|k: int|
                0 <= k < before.len() ==> part@[k] == (if position <= k < position
                    + contents@.len() {
                    contents@[k - position]
                } else if position + contents@.len() <= k < i {
                    0u8
                } else {
                    before[k]
                }),
        decreases end - i,
    {
        part[i] = 0;
        i = i + 1;
    }
    assert(part@ =~= overwritten(
        before,
        position as int,
        contents@ + Seq::new((needed - contents@.len()) as nat, |i: int| 0u8),
    ));
    Ok((Some((position, position + contents_len)), end))
}

/// What a relocation computes, and which bits of addresses it takes part in.
#[derive(Clone, Copy, Debug, PartialEq, Eq, Structural)]
pub struct RelInfo {
    pub kind: RelocationKind,
    /// The bits of the symbol's address.
    pub symbol_mask: u64,
    /// The bits of the address of the place that is changed.
    pub place_mask: u64,
}

/// Why a relocation is not applied.
#[derive(Clone, Copy, Debug, PartialEq, Eq, Structural)]
pub enum RelocationError {
    /// Loads of thread-local variables have to be relaxed.
    TlvNotRelaxed,
    /// The type of the relocation is not known.
    UnknownType,
    /// The kind of relocation is not supported.
    UnsupportedKind,
    /// Neither the symbol nor the section that it is in has an address.
    MissingResolution,
}

/// What a relocation computes: what relaxation made of it, if it was relaxed, and otherwise what
/// its type says.
pub fn choose_rel_info(relaxed: Option<RelInfo>, r_type: u8, raw: Option<RelInfo>) -> (info: Result<
    RelInfo,
    RelocationError,
>)
    ensures
        info == (match relaxed {
            Some(relaxed) => Ok::<RelInfo, RelocationError>(relaxed),
            None => if r_type == ARM64_RELOC_TLVP_LOAD_PAGEOFF12 {
                Err::<RelInfo, RelocationError>(RelocationError::TlvNotRelaxed)
            } else {
                match raw {
                    Some(raw) => Ok::<RelInfo, RelocationError>(raw),
                    None => Err::<RelInfo, RelocationError>(RelocationError::UnknownType),
                }
            },
        }),
{
    match relaxed {
        Some(relaxed) => Ok(relaxed),
        None => {
            if r_type == ARM64_RELOC_TLVP_LOAD_PAGEOFF12 {
                Err(RelocationError::TlvNotRelaxed)
            } else {
                match raw {
                    Some(raw) => Ok(raw),
                    None => Err(RelocationError::UnknownType),
                }
            }
        },
    }
}

/// Where a relocation is applied and what it refers to.
#[derive(Clone, Copy, Debug, PartialEq, Eq, Structural)]
pub struct RelocationTarget {
    /// The address of the place that is changed.
    pub place: u64,
    /// The value of the symbol.
    pub value: u64,
    /// What is known of the symbol.
    pub flags: ValueFlags,
    /// The type of the section that is changed.
    pub section_type: u8,
    /// The symbol is in the initial contents of thread-local variables.
    pub is_tlv_template: bool,
    /// The address of the initial contents of thread-local variables.
    pub tlv_data_start: u64,
}

/// The difference of two addresses, modulo 2^64.
pub open spec fn wrapped_difference(a: u64, b: u64) -> u64 {
    (if a >= b {
        a - b
    } else {
        a - b + 0x1_0000_0000_0000_0000
    }) as u64
}

/// The value that a relocation computes. Descriptors of thread-local variables hold offsets into
/// the initial contents of the variables.
pub open spec fn computed_value(info: RelInfo, target: RelocationTarget) -> Option<u64> {
    let symbol = target.value & info.symbol_mask;
    match info.kind {
        RelocationKind::Absolute => if target.section_type == S_THREAD_LOCAL_VARIABLES
            && !target.flags.dynamic && !target.flags.absolute && target.is_tlv_template {
            Some(wrapped_difference(target.value, target.tlv_data_start))
        } else {
            Some(symbol)
        },
        RelocationKind::AbsoluteLowPart | RelocationKind::Got => Some(symbol),
        RelocationKind::Relative | RelocationKind::GotRelative => Some(
            wrapped_difference(symbol, target.place & info.place_mask),
        ),
        _ => None,
    }
}

/// The value that a relocation computes.
pub fn relocation_value(info: RelInfo, target: RelocationTarget) -> (value: Result<
    u64,
    RelocationError,
>)
    ensures
        value == (match computed_value(info, target) {
            Some(value) => Ok::<u64, RelocationError>(value),
            None => Err::<u64, RelocationError>(RelocationError::UnsupportedKind),
        }),
{
    let symbol: u64 = target.value & info.symbol_mask;
    match info.kind {
        RelocationKind::Absolute => {
            if target.section_type == S_THREAD_LOCAL_VARIABLES
                && target.flags.has_link_time_address() && target.is_tlv_template {
                Ok(target.value.wrapping_sub(target.tlv_data_start))
            } else {
                Ok(symbol)
            }
        },
        RelocationKind::AbsoluteLowPart | RelocationKind::Got => Ok(symbol),
        RelocationKind::Relative | RelocationKind::GotRelative => Ok(
            symbol.wrapping_sub(target.place & info.place_mask),
        ),
        _ => Err(RelocationError::UnsupportedKind),
    }
}

/// Decides what a relocation writes. `relaxed` is what relaxation made of it, and `raw` is what its
/// type says.
pub fn apply_relocation(
    target: RelocationTarget,
    r_type: u8,
    relaxed: Option<RelInfo>,
    raw: Option<RelInfo>,
) -> (result: Result<u64, RelocationError>)
    ensures
        result == (match relaxed {
            None if r_type == ARM64_RELOC_TLVP_LOAD_PAGEOFF12 => Err::<u64, RelocationError>(
                RelocationError::TlvNotRelaxed,
            ),
            _ => match if relaxed is Some {
                relaxed
            } else {
                raw
            } {
                None => Err::<u64, RelocationError>(RelocationError::UnknownType),
                Some(info) => match computed_value(info, target) {
                    Some(value) => Ok::<u64, RelocationError>(value),
                    None => Err::<u64, RelocationError>(RelocationError::UnsupportedKind),
                },
            },
        }),
{
    match choose_rel_info(relaxed, r_type, raw) {
        Ok(info) => relocation_value(info, target),
        Err(error) => Err(error),
    }
}

/// A value that a relative relocation has written leads back to the symbol.
pub proof fn lemma_relative_round_trip(info: RelInfo, target: RelocationTarget)
    requires
        info.kind is Relative || info.kind is GotRelative,
    ensures
        computed_value(info, target) is Some,
        ((target.place & info.place_mask) + computed_value(info, target)->0)
            % 0x1_0000_0000_0000_0000 == target.value & info.symbol_mask,
{
    let a = target.value & info.symbol_mask;
    let b = target.place & info.place_mask;
    let d = wrapped_difference(a, b);
    if a >= b {
        assert((b + d) == a);
    } else {
        assert((b + d) == a + 0x1_0000_0000_0000_0000);
    }
}

/// Whether a section holds the initial contents of thread-local variables.
pub open spec fn is_template_section<'data>(
    sections: &OutputSections<'data>,
    id: OutputSectionId,
) -> bool {
    let ty = sections.info(sections.primary(id)).section_attributes.ty;
    ty == S_THREAD_LOCAL_REGULAR || ty == S_THREAD_LOCAL_ZEROFILL
}

/// Whether a symbol is in the initial contents of thread-local variables. `section_id` is the
/// section that defines it.
pub fn is_tlv_template_referent<'data>(
    sections: &OutputSections<'data>,
    section_id: Option<OutputSectionId>,
) -> (is: bool)
    requires
        sections.wf(),
        section_id matches Some(id) ==> sections.has(id),
    ensures
        is == (match section_id {
            Some(id) => is_template_section(sections, id),
            None => false,
        }),
{
    match section_id {
        Some(id) => {
            proof {
                sections.lemma_primary(id);
            }
            let primary: OutputSectionId = sections.primary_output_section(id);
            let ty: u32 = sections.section_flags(primary).ty;
            ty == S_THREAD_LOCAL_REGULAR as u32 || ty == S_THREAD_LOCAL_ZEROFILL as u32
        },
        None => false,
    }
}

/// The resolution of what a relocation refers to: that of the symbol, or else the address of the
/// section that the symbol is in.
pub open spec fn referent(
    merged: Option<Resolution>,
    section_index: Option<usize>,
    section_resolutions: Seq<SectionResolution>,
) -> Option<Resolution> {
    match merged {
        Some(resolution) => Some(resolution),
        None => match section_index {
            None => None,
            Some(index) => match section_resolutions[index as int].spec_address() {
                None => None,
                Some(address) => Some(
                    Resolution {
                        raw_value: address,
                        dynamic_symbol_index: None,
                        flags: ValueFlags::none(),
                        got_address: None,
                        plt_address: None,
                    },
                ),
            },
        },
    }
}

/// The resolution of what a relocation refers to, and the symbol.
pub fn get_resolution(
    symbol_index: usize,
    symbol_id_range: SymbolIdRange,
    merged: Option<Resolution>,
    section_index: Option<usize>,
    section_resolutions: &Vec<SectionResolution>,
) -> (result: Result<(Resolution, SymbolId), RelocationError>)
    requires
        symbol_id_range.wf(),
        symbol_index < symbol_id_range.num_symbols,
        section_index matches Some(index) ==> index < section_resolutions@.len(),
    ensures
        result == (match referent(merged, section_index, section_resolutions@) {
            Some(resolution) => Ok::<(Resolution, SymbolId), RelocationError>(
                (resolution, symbol_id_range.id_at(symbol_index as int)),
            ),
            None => Err::<(Resolution, SymbolId), RelocationError>(
                RelocationError::MissingResolution,
            ),
        }),
{
    let local_symbol_id: SymbolId = symbol_id_range.input_to_id(symbol_index);
    if let Some(resolution) = merged {
        return Ok((resolution, local_symbol_id));
    }
    if let Some(index) = section_index {
        if let Some(address) = section_resolutions[index].address() {
            return Ok(
                (
                    Resolution {
                        raw_value: address,
                        dynamic_symbol_index: None,
                        flags: ValueFlags::empty(),
                        got_address: None,
                        plt_address: None,
                    },
                    local_symbol_id,
                ),
            );
        }
    }
    Err(RelocationError::MissingResolution)
}

/// Where a relocation is applied and what it refers to. `None` if what it refers to has no address.
/// The symbol is given by its index among the symbols of its file, `section_index` is the section of
/// the file that it is in, and `section_id` the section of the output that defines it.
pub open spec fn target_of<'data>(
    layout: &Layout<'data>,
    symbol_index: usize,
    symbol_id_range: SymbolIdRange,
    section_index: Option<usize>,
    section_resolutions: Seq<SectionResolution>,
    section_id: Option<OutputSectionId>,
    section_type: u8,
    place: u64,
) -> Option<RelocationTarget> {
    let symbol_id = symbol_id_range.id_at(symbol_index as int);
    match referent(layout.merged_resolution(symbol_id), section_index, section_resolutions) {
        None => None,
        Some(resolution) => Some(
            RelocationTarget {
                place,
                value: resolution.raw_value,
                flags: layout.per_symbol_flags@[symbol_id.0 as int],
                section_type,
                is_tlv_template: match section_id {
                    Some(id) => is_template_section(&layout.output_sections, id),
                    None => false,
                },
                tlv_data_start: layout.tlv_start(),
            },
        ),
    }
}

/// Finds what a relocation refers to. The symbol is given by its index among the symbols of its
/// file, `section_index` is the section of the file that it is in, and `section_id` the section of
/// the output that defines it. `section_type` is the type of the section that is changed.
pub fn relocation_target<'data>(
    layout: &Layout<'data>,
    symbol_index: usize,
    symbol_id_range: SymbolIdRange,
    section_index: Option<usize>,
    section_resolutions: &Vec<SectionResolution>,
    section_id: Option<OutputSectionId>,
    section_type: u8,
    place: u64,
) -> (result: Result<RelocationTarget, RelocationError>)
    requires
        layout.wf(),
        symbol_id_range.wf(),
        symbol_id_range.start_symbol_id.0 + symbol_id_range.num_symbols
            <= layout.symbol_resolutions@.len(),
        symbol_index < symbol_id_range.num_symbols,
        section_index matches Some(index) ==> index < section_resolutions@.len(),
        section_id matches Some(id) ==> layout.output_sections.has(id),
    ensures
        result == (match target_of(
            layout,
            symbol_index,
            symbol_id_range,
            section_index,
            section_resolutions@,
            section_id,
            section_type,
            place,
        ) {
            Some(target) => Ok::<RelocationTarget, RelocationError>(target),
            None => Err::<RelocationTarget, RelocationError>(RelocationError::MissingResolution),
        }),
{
    let merged: Option<Resolution> = layout.merged_symbol_resolution(
        symbol_id_range.input_to_id(symbol_index),
    );
    match get_resolution(
        symbol_index,
        symbol_id_range,
        merged,
        section_index,
        section_resolutions,
    ) {
        Ok((resolution, symbol_id)) => Ok(
            RelocationTarget {
                place,
                value: resolution.raw_value,
                flags: layout.flags_for_symbol(symbol_id),
                section_type,
                is_tlv_template: is_tlv_template_referent(&layout.output_sections, section_id),
                tlv_data_start: layout.tlv_data_start_address(),
            },
        ),
        Err(error) => Err(error),
    }
}

/// What a relocation needs of a symbol. Symbols of libraries are reached through their entries, and
/// branches to them through stubs.
pub open spec fn needed_of_symbol(kind: RelocationKind, r_type: u8, in_library: bool) -> ValueFlags {
    let base = value_flags::needed_for(kind);
    if !in_library {
        base
    } else if r_type == ARM64_RELOC_BRANCH26 {
        ValueFlags { got: true, plt: true, dynamic_function: true, ..base }
    } else {
        ValueFlags { got: true, ..base }
    }
}

/// Records what a relocation needs of a symbol. Returns whether the symbol has to be loaded, which
/// is the case if nothing has needed it before.
pub fn process_relocation(
    symbol_flags: &mut ValueFlags,
    kind: RelocationKind,
    r_type: u8,
    in_library: bool,
) -> (load: bool)
    ensures
        *final(symbol_flags) == old(symbol_flags).union(
            needed_of_symbol(kind, r_type, in_library),
        ),
        load == !old(symbol_flags).spec_has_resolution(),
{
    let mut needed: ValueFlags = resolution_flags(kind);
    if in_library {
        needed.got = true;
        if r_type == ARM64_RELOC_BRANCH26 {
            needed.dynamic_function = true;
            needed.plt = true;
        }
    }
    let before: ValueFlags = symbol_flags.fetch_or(needed);
    !before.has_resolution()
}

} // verus!
