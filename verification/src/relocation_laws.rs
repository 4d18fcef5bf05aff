//! What relocations write, and what the bytes around them keep.
use crate::input_sections::Section;
use crate::layout_queries::{Layout, ObjectLayout};
use crate::macho_attributes::{
    S_THREAD_LOCAL_REGULAR, S_THREAD_LOCAL_VARIABLES, S_THREAD_LOCAL_ZEROFILL,
};
use crate::macho_imports::ImportedSymbolWithResolution;
use crate::macho_objects;
use crate::macho_objects::SectionRelocation;
use crate::macho_writer;
use crate::macho_writer::{
    RelInfo, RelocationError, RelocationTarget, ARM64_RELOC_BRANCH26,
    ARM64_RELOC_TLVP_LOAD_PAGEOFF12,
};
use crate::output_section_id::{OutputSectionId, PartId};
use crate::output_sections::OutputSections;
use crate::resolution::SectionResolution;
use crate::symbol_id::SymbolIdRange;
use crate::value_flags;
use crate::value_flags::{RelocationKind, ValueFlags};
use vstd::prelude::*;

verus! {

/// Whether a relocation fills a descriptor of a thread-local variable with the offset of the
/// variable.
pub open spec fn fills_descriptor(info: RelInfo, target: RelocationTarget) -> bool {
    &&& info.kind is Absolute
    &&& target.section_type == S_THREAD_LOCAL_VARIABLES
    &&& target.is_tlv_template
    &&& !target.flags.dynamic
    &&& !target.flags.absolute
}

/// An absolute relocation, one of the low bits of an address and one of an entry write the bits of
/// the symbol's value that the mask selects. Where the instruction is does not matter, nor do the
/// bits that the mask leaves out.
pub proof fn lemma_absolute_values_ignore_place(
    info: RelInfo,
    target: RelocationTarget,
    place: u64,
    place_mask: u64,
)
    requires
        info.kind is Absolute || info.kind is AbsoluteLowPart || info.kind is Got,
        !fills_descriptor(info, target),
    ensures
        macho_writer::computed_value(info, target) == Some(target.value & info.symbol_mask),
        macho_writer::computed_value(
            (RelInfo { place_mask, ..info }),
            (RelocationTarget { place, ..target }),
        ) == macho_writer::computed_value(info, target),
{
}

/// A relative relocation writes the distance, modulo 2^64, from the selected bits of the place to
/// the selected bits of the symbol's value: it is the only value that leads from one to the other.
pub proof fn lemma_relative_value_is_distance(info: RelInfo, target: RelocationTarget, value: u64)
    requires
        info.kind is Relative || info.kind is GotRelative,
    ensures
        macho_writer::computed_value(info, target) == Some(value) <==> ((target.place
            & info.place_mask) + value) % 0x1_0000_0000_0000_0000 == target.value
            & info.symbol_mask,
{
    macho_writer::lemma_relative_round_trip(info, target);
    let place = target.place & info.place_mask;
    let written = macho_writer::computed_value(info, target)->0;
    if (place + value) % 0x1_0000_0000_0000_0000 == (place + written) % 0x1_0000_0000_0000_0000 {
        assert(value == written);
    }
}

/// A relative relocation does not change if the symbol and the place move by the same distance.
pub proof fn lemma_relative_value_moves_along(
    info: RelInfo,
    target: RelocationTarget,
    distance: u64,
)
    requires
        info.kind is Relative || info.kind is GotRelative,
        info.symbol_mask == u64::MAX,
        info.place_mask == u64::MAX,
        target.value + distance <= u64::MAX,
        target.place + distance <= u64::MAX,
    ensures
        macho_writer::computed_value(
            info,
            (RelocationTarget {
                value: (target.value + distance) as u64,
                place: (target.place + distance) as u64,
                ..target
            }),
        ) == macho_writer::computed_value(info, target),
{
    let value = target.value;
    let place = target.place;
    let moved_value = (target.value + distance) as u64;
    let moved_place = (target.place + distance) as u64;
    assert(value & 0xffff_ffff_ffff_ffff == value) by (bit_vector);
    assert(place & 0xffff_ffff_ffff_ffff == place) by (bit_vector);
    assert(moved_value & 0xffff_ffff_ffff_ffff == moved_value) by (bit_vector);
    assert(moved_place & 0xffff_ffff_ffff_ffff == moved_place) by (bit_vector);
}

/// The descriptor of a thread-local variable gets the offset of the variable in the initial
/// contents: adding where these start leads to the variable.
pub proof fn lemma_descriptors_hold_offsets(info: RelInfo, target: RelocationTarget)
    requires
        fills_descriptor(info, target),
    ensures
        macho_writer::computed_value(info, target) matches Some(offset) && (target.tlv_data_start
            + offset) % 0x1_0000_0000_0000_0000 == target.value,
        target.tlv_data_start <= target.value ==> macho_writer::computed_value(info, target)
            == Some((target.value - target.tlv_data_start) as u64),
{
}

/// A relocation can be computed if and only if it is absolute or relative, directly or through an
/// entry.
pub proof fn lemma_computable_kinds(info: RelInfo, target: RelocationTarget)
    ensures
        macho_writer::computed_value(info, target) is Some <==> info.kind is Absolute
            || info.kind is AbsoluteLowPart || info.kind is Got || info.kind is Relative
            || info.kind is GotRelative,
{
}

/// What relaxation made of a relocation counts before what its type says.
pub proof fn lemma_relaxation_counts_first<'data>(
    relocation: SectionRelocation,
    info: RelInfo,
    section_type: u8,
    section_address: u64,
    object: &ObjectLayout<'data>,
    layout: &Layout<'data>,
)
    requires
        relocation.r_type != ARM64_RELOC_TLVP_LOAD_PAGEOFF12,
    ensures
        macho_objects::written_value(
            (SectionRelocation { relaxed: Some(info), ..relocation }),
            section_type,
            section_address,
            object,
            layout,
        ) == macho_objects::written_value(
            (SectionRelocation { relaxed: None, raw: Some(info), ..relocation }),
            section_type,
            section_address,
            object,
            layout,
        ),
{
}

/// Loads of thread-local variables that were not relaxed are never written, and neither are
/// relocations of unknown types.
pub proof fn lemma_unknown_relocations_fail<'data>(
    relocation: SectionRelocation,
    section_type: u8,
    section_address: u64,
    object: &ObjectLayout<'data>,
    layout: &Layout<'data>,
)
    requires
        relocation.relaxed is None,
        relocation.r_type == ARM64_RELOC_TLVP_LOAD_PAGEOFF12 || relocation.raw is None,
    ensures
        macho_objects::written_value(
            relocation,
            section_type,
            section_address,
            object,
            layout,
        ) is Err,
{
}

/// An absolute relocation outside of descriptors writes the value of the symbol, wherever its
/// section is; a relative one leads from its place, the address of the section and the offset in
/// it, to the symbol.
pub proof fn lemma_written_values<'data>(
    relocation: SectionRelocation,
    info: RelInfo,
    section_type: u8,
    section_address: u64,
    object: &ObjectLayout<'data>,
    layout: &Layout<'data>,
    value: u64,
)
    requires
        section_address + relocation.offset <= u64::MAX,
        relocation.relaxed == Some(info) || relocation.relaxed is None && relocation.raw == Some(
            info,
        ),
        section_type != S_THREAD_LOCAL_VARIABLES,
        macho_objects::written_value(relocation, section_type, section_address, object, layout)
            == Ok::<u64, RelocationError>(value),
    ensures
        ({
            let id = object.symbol_id_range.start_symbol_id.0 + relocation.symbol_index;
            let definition = layout.definitions@[id as u32 as int].0 as int;
            let address = match layout.symbol_resolutions@[definition] {
                Some(resolution) => resolution.raw_value,
                None => object.section_resolutions@[relocation.section_index->0 as int].address,
            };
            let place = section_address + relocation.offset;
            &&& info.kind is Absolute || info.kind is AbsoluteLowPart || info.kind is Got ==> value
                == address & info.symbol_mask
            &&& info.kind is Relative || info.kind is GotRelative ==> (((place as u64)
                & info.place_mask) + value) % 0x1_0000_0000_0000_0000 == address
                & info.symbol_mask
        }),
{
    let target = macho_writer::target_of(
        layout,
        relocation.symbol_index,
        object.symbol_id_range,
        relocation.section_index,
        object.section_resolutions@,
        relocation.section_id,
        section_type,
        (section_address + relocation.offset) as u64,
    )->0;
    if info.kind is Relative || info.kind is GotRelative {
        macho_writer::lemma_relative_round_trip(info, target);
    }
}

/// A relocation refers to the definition of its symbol: two symbols with the same definition have
/// the same value. If the definition has no address, the section of the symbol stands for it.
pub proof fn lemma_target_is_definition<'data>(
    layout: &Layout<'data>,
    symbol_index: usize,
    range: SymbolIdRange,
    section_index: Option<usize>,
    section_resolutions: Seq<SectionResolution>,
    section_id: Option<OutputSectionId>,
    section_type: u8,
    place: u64,
)
    requires
        range.start_symbol_id.0 + symbol_index <= u32::MAX,
    ensures
        ({
            let id = range.start_symbol_id.0 + symbol_index;
            let definition = layout.definitions@[id as int].0 as int;
            let target = macho_writer::target_of(
                layout,
                symbol_index,
                range,
                section_index,
                section_resolutions,
                section_id,
                section_type,
                place,
            );
            &&& layout.symbol_resolutions@[definition] matches Some(resolution) ==> target
                matches Some(target) && target.value == resolution.raw_value
            &&& layout.symbol_resolutions@[definition] is None && section_index is None
                ==> target is None
            &&& (layout.symbol_resolutions@[definition] is None ==> (section_index matches Some(
                index,
            ) ==> {
                let address = section_resolutions[index as int].address;
                &&& target is None <==> address == u64::MAX
                &&& target matches Some(target) ==> target.value == address
            }))
            &&& target matches Some(target) ==> {
                &&& target.place == place
                &&& target.section_type == section_type
                &&& target.flags == layout.per_symbol_flags@[id as int]
                &&& target.is_tlv_template <==> (section_id matches Some(id) && ({
                    let ty = layout.output_sections.info(
                        layout.output_sections.primary(id),
                    ).section_attributes.ty;
                    ty == S_THREAD_LOCAL_REGULAR || ty == S_THREAD_LOCAL_ZEROFILL
                }))
            }
        }),
{
}

/// Overwriting changes no byte before or after what is written, and no length.
pub proof fn lemma_overwriting_is_local(buffer: Seq<u8>, offset: int, bytes: Seq<u8>, i: int)
    requires
        0 <= offset,
        offset + bytes.len() <= buffer.len(),
        0 <= i < buffer.len(),
    ensures
        macho_writer::overwritten(buffer, offset, bytes).len() == buffer.len(),
        i < offset || offset + bytes.len() <= i ==> macho_writer::overwritten(
            buffer,
            offset,
            bytes,
        )[i] == buffer[i],
        macho_writer::overwritten(buffer, offset, bytes).subrange(offset, offset + bytes.len())
            == bytes,
{
    assert(macho_writer::overwritten(buffer, offset, bytes).subrange(offset, offset + bytes.len())
        =~= bytes);
}

/// Writing the entries of imports changes no byte outside of them.
pub proof fn lemma_entries_leave_rest(
    got: Seq<u8>,
    imports: Seq<ImportedSymbolWithResolution>,
    start: u64,
    count: int,
    i: int,
)
    requires
        0 <= i < got.len(),
        0 <= count <= imports.len(),
        forall|k: int|
            0 <= k < count ==> !(#[trigger] imports[k].got_address <= start + i
                < imports[k].got_address + 8),
    ensures
        macho_writer::got_written(got, imports, start, count).len() == got.len(),
        macho_writer::got_written(got, imports, start, count)[i] == got[i],
    decreases count,
{
    vstd::bytes::lemma_auto_spec_u64_to_from_le_bytes();
    if count > 0 {
        lemma_entries_leave_rest(got, imports, start, count - 1, i);
        assert(!(imports[count - 1].got_address <= start + i < imports[count - 1].got_address
            + 8));
    }
}

/// Whether an import has a stub among the given ones.
pub open spec fn has_stub(
    stubs: Seq<macho_writer::PltEntry>,
    import: ImportedSymbolWithResolution,
    start: u64,
) -> bool {
    exists|k: int|
        0 <= k < stubs.len() && (#[trigger] stubs[k]).got_address == import.got_address && Some(
            stubs[k].plt_address,
        ) == import.plt_address && stubs[k].offset + start == stubs[k].plt_address
}

/// Every import that is called has a stub: it jumps through the entry of that import, and it is as
/// far from the start of its section as its address says.
pub proof fn lemma_called_imports_have_stubs(
    imports: Seq<ImportedSymbolWithResolution>,
    start: u64,
    count: int,
    i: int,
)
    requires
        0 <= i < count <= imports.len(),
        macho_writer::stubs(imports, start, count) is Ok,
        imports[i].plt_address is Some,
    ensures
        has_stub(macho_writer::stubs(imports, start, count)->Ok_0, imports[i], start),
    decreases count,
{
    let all = macho_writer::stubs(imports, start, count)->Ok_0;
    let before = macho_writer::stubs(imports, start, count - 1)->Ok_0;
    if i == count - 1 {
        let last = all[all.len() - 1];
        assert(last.got_address == imports[i].got_address);
    } else {
        lemma_called_imports_have_stubs(imports, start, count - 1, i);
        let k = choose|k: int|
            0 <= k < before.len() && (#[trigger] before[k]).got_address == imports[i].got_address
                && Some(before[k].plt_address) == imports[i].plt_address && before[k].offset + start
                == before[k].plt_address;
        assert(all[k] == before[k]);
    }
}

/// How many of the first `count` imports are called.
pub open spec fn called(imports: Seq<ImportedSymbolWithResolution>, count: int) -> int
    decreases count,
{
    if count <= 0 {
        0
    } else {
        called(imports, count - 1) + (if imports[count - 1].plt_address is Some {
            1int
        } else {
            0
        })
    }
}

/// There are as many stubs as imports that are called, and stubs can be written if and only if none
/// would be before its section.
pub proof fn lemma_stub_count(imports: Seq<ImportedSymbolWithResolution>, start: u64, count: int)
    requires
        0 <= count <= imports.len(),
    ensures
        macho_writer::stubs(imports, start, count) matches Ok(stubs) ==> stubs.len() == called(
            imports,
            count,
        ),
        macho_writer::stubs(imports, start, count) is Ok <==> forall|i: int|
            0 <= i < count ==> ((#[trigger] imports[i]).plt_address matches Some(address) ==> start
                <= address),
    decreases count,
{
    if count > 0 {
        lemma_stub_count(imports, start, count - 1);
        assert(imports[count - 1].plt_address == imports[count - 1].plt_address);
    }
}

/// The contents of a section are written where the last one ended, zeros follow up to the end of the
/// space that the section takes, and all other bytes stay.
pub proof fn lemma_contents_are_written<'data>(
    part: Seq<u8>,
    position: usize,
    section: Section,
    contents: Seq<u8>,
    part_id: PartId,
    packed: bool,
    sections: &OutputSections<'data>,
    i: int,
)
    requires
        position <= part.len() <= usize::MAX,
        0 <= i < part.len(),
    ensures
        macho_writer::raw_written(part, position, section, contents, part_id, packed, sections)
            matches Ok((bytes, range, end)) ==> {
            let id = OutputSectionId(sections.platform.section_of(part_id.0 as int) as u32);
            &&& bytes.len() == part.len()
            &&& position <= end <= part.len()
            &&& i < position || end <= i ==> bytes[i] == part[i]
            &&& sections.info(id).section_attributes.no_bits ==> end == position && range is None
            &&& !sections.info(id).section_attributes.no_bits ==> {
                &&& range == Some((position, (position + contents.len()) as usize))
                &&& position + contents.len() <= end
                &&& position <= i < position + contents.len() ==> bytes[i] == contents[i
                    - position]
                &&& position + contents.len() <= i < end ==> bytes[i] == 0
                &&& end - position >= section.size
                &&& packed ==> end - position == section.size
            }
        },
{
    let exponent = sections.alignment_of(part_id);
    let value = crate::alignment::Alignment::of_exp(exponent).bytes();
    vstd::arithmetic::power2::lemma_pow2_pos(crate::alignment::Alignment::of_exp(exponent).exp());
    crate::alignment::lemma_round_up(section.size as int, value);
}

/// A symbol of a library is always reached through an entry, and branches to it through a stub. What
/// is needed of other symbols depends on the kind of relocation only.
pub proof fn lemma_library_symbols_need_entries(kind: RelocationKind, r_type: u8)
    ensures
        macho_writer::needed_of_symbol(kind, r_type, true).got,
        r_type == ARM64_RELOC_BRANCH26 ==> macho_writer::needed_of_symbol(kind, r_type, true).plt
            && macho_writer::needed_of_symbol(kind, r_type, true).dynamic_function,
        r_type != ARM64_RELOC_BRANCH26 ==> macho_writer::needed_of_symbol(kind, r_type, true)
            == (ValueFlags { got: true, ..macho_writer::needed_of_symbol(kind, r_type, false) }),
        forall|other: u8|
            macho_writer::needed_of_symbol(kind, r_type, false) == #[trigger]
            macho_writer::needed_of_symbol(kind, other, false),
{
}

/// A relocation that goes through the global offset table needs an entry there, one that goes
/// through a stub needs the stub too, and each kind of thread-local access needs its own entry. No
/// relocation needs a thread-local entry and another one, or says anything of what a symbol is.
pub proof fn lemma_needs_of_kinds(kind: RelocationKind)
    ensures
        ({
            let needed = value_flags::needed_for(kind);
            &&& needed.plt <==> kind is PltRelative || kind is PltRelGotBase
            &&& needed.got <==> needed.plt || kind is Got || kind is GotRelGotBase
                || kind is GotRelative || kind is GotRelativeLoongArch64
            &&& needed.got_tls_offset <==> kind is GotTpOff || kind is GotTpOffLoongArch64
                || kind is GotTpOffGot || kind is GotTpOffGotBase
            &&& needed.got_tls_module <==> kind is TlsGd || kind is TlsGdGot
                || kind is TlsGdGotBase
            &&& needed.got_tls_descriptor <==> kind is TlsDesc || kind is TlsDescLoongArch64
                || kind is TlsDescGot || kind is TlsDescGotBase || kind is TlsDescCall
            &&& needed.direct ==> !needed.got && !needed.got_tls_offset && !needed.got_tls_module
                && !needed.got_tls_descriptor
            &&& kind is Absolute || kind is Relative || kind is TpOff || kind is DtpOff
                || kind is SymRelGotBase ==> needed.direct
            &&& kind is NoRelocation || kind is Alignment || kind is TlsLd
                || kind is AbsoluteLowPart ==> !needed.spec_has_resolution()
            &&& !needed.absolute && !needed.dynamic && !needed.dynamic_function
                && !needed.non_interposable && !needed.downgrade_to_local && !needed.has_non_ir_ref
                && !needed.export_dynamic
        }),
{
}

} // verus!
