//! What holds of the attributes and contents of sections of Mach-O files.
use crate::layout_queries::{Layout, ObjectLayout};
use crate::macho_attributes;
use crate::macho_attributes::{MachOAttributes, SegmentName};
use crate::macho_objects;
use crate::macho_objects::{ObjectProgress, ObjectSection};
use crate::macho_sections;
use crate::macho_segments::SinglePartSectionId;
use crate::macho_symbols::SymtabEntry;
use crate::output_section_id::OutputSectionId;
use crate::output_section_part_map::OutputSectionPartMap;
use crate::output_sections::{OutputSections, SectionOutputInfo};
use vstd::prelude::*;

verus! {

/// A section that two others are put into can do what either can: it can be written if one of them
/// can, and holds instructions if one of them does.
pub proof fn lemma_merged_attributes(a: MachOAttributes, b: MachOAttributes)
    ensures
        ({
            let merged = a.merged(b);
            &&& merged.writable == (a.writable || b.writable)
            &&& merged.spec_is_executable() == (a.spec_is_executable() || b.spec_is_executable())
            &&& merged.ty >= a.ty && merged.ty >= b.ty
            &&& merged.ty == a.ty || merged.ty == b.ty
            &&& merged.attr & a.attr == a.attr
            &&& merged.attr & b.attr == b.attr
            &&& merged == b.merged(a)
        }),
{
    let x = a.attr;
    let y = b.attr;
    assert((x | y) & 0x8000_0400 != 0 <==> (x & 0x8000_0400 != 0 || y & 0x8000_0400 != 0))
        by (bit_vector);
    assert((x | y) & x == x && (x | y) & y == y && x | y == y | x) by (bit_vector);
}

/// An output section is writable and holds instructions if it or one of its inputs does. What inputs
/// say of their relocations does not carry over.
pub proof fn lemma_applied_attributes(output: MachOAttributes, inputs: MachOAttributes)
    ensures
        ({
            let applied = output.applied(inputs);
            &&& applied.writable == (output.writable || inputs.writable)
            &&& applied.spec_is_executable() == (output.spec_is_executable()
                || inputs.spec_is_executable())
            &&& applied.ty >= output.ty && applied.ty >= inputs.ty
            &&& applied.ty == output.ty || applied.ty == inputs.ty
            &&& applied.attr & output.attr == output.attr
            &&& applied.attr & 0x300 == output.attr & 0x300
            &&& applied.attr & 0xffff_fcff == (output.attr | inputs.attr) & 0xffff_fcff
        }),
{
    let x = output.attr;
    let y = inputs.attr;
    assert(0x200u32 | 0x100u32 == 0x300u32) by (bit_vector);
    assert((x | (y & !0x300u32)) & 0x8000_0400 != 0 <==> (x & 0x8000_0400 != 0 || y & 0x8000_0400
        != 0)) by (bit_vector);
    assert((x | (y & !0x300u32)) & x == x && (x | (y & !0x300u32)) & 0x300 == x & 0x300) by (bit_vector);
    assert((x | (y & !0x300u32)) & 0xffff_fcff == (x | y) & 0xffff_fcff) by (bit_vector);
}

/// All of a section is loaded, it is writable if its segment is, and whether it has contents in the
/// file depends on its type alone.
pub proof fn lemma_properties_of_sections(attributes: MachOAttributes)
    ensures
        ({
            let known = macho_sections::spec_properties(attributes);
            &&& known.alloc
            &&& known.writable == attributes.writable
            &&& known.no_bits <==> attributes.ty == 1 || attributes.ty == 12 || attributes.ty == 18
            &&& known.tls <==> attributes.ty == 17 || attributes.ty == 18
            &&& !known.tls_address_space_only
        }),
{
}

/// Nothing but the attributes of an output section changes when those of its inputs are applied.
pub proof fn lemma_attributes_apply_to_section<'data>(
    info: SectionOutputInfo<'data>,
    inputs: MachOAttributes,
)
    ensures
        ({
            let after = macho_sections::with_attributes(info, inputs);
            &&& after.kind == info.kind
            &&& after.min_alignment == info.min_alignment
            &&& after.location_info == info.location_info
            &&& after.section_attributes.writable == (info.section_attributes.writable
                || inputs.writable)
            &&& after.section_attributes.alloc
        }),
{
}

/// Debug information, what the linker makes itself, and tables of addresses and stubs are left out of
/// the output. Code and plain data are not.
pub proof fn lemma_left_out_sections(flags: u32, segment: SegmentName)
    ensures
        flags & 0x0200_0000 != 0 ==> macho_attributes::is_excluded(flags, segment),
        segment.bytes@ == macho_attributes::pagezero_name() || segment.bytes@
            == macho_attributes::linkedit_name() || segment.bytes@ == macho_attributes::llvm_name()
            ==> macho_attributes::is_excluded(flags, segment),
        flags & 0x0200_0000 == 0 && segment.bytes@ == macho_attributes::text_name() && flags & 0xff
            == 0 ==> !macho_attributes::is_excluded(flags, segment),
        flags & 0x0200_0000 == 0 && segment.bytes@ == macho_attributes::data_name() && (flags & 0xff
            == 0 || flags & 0xff == 1 || flags & 0xff == 17 || flags & 0xff == 18 || flags & 0xff
            == 19) ==> !macho_attributes::is_excluded(flags, segment),
        flags & 0xff == 6 || flags & 0xff == 7 || flags & 0xff == 8 || flags & 0xff == 16 || flags
            & 0xff == 20 ==> macho_attributes::is_excluded(flags, segment),
{
    let text = macho_attributes::text_name();
    let data = macho_attributes::data_name();
    assert(text[2] == 0x54 && data[2] == 0x44);
    assert(macho_attributes::pagezero_name()[2] == 0x50);
    assert(macho_attributes::linkedit_name()[2] == 0x4c);
    assert(macho_attributes::llvm_name()[2] == 0x4c);
    assert(flags & 0xff <= 0xff) by (bit_vector);
}

proof fn lemma_tls_exponent<'data>(
    sections: &OutputSections<'data>,
    sizes: &OutputSectionPartMap<u64>,
    count: int,
)
    requires
        0 <= count <= u32::MAX,
    ensures
        forall|i: int|
            0 <= i < count && (#[trigger] sections.infos()[i]).section_attributes.tls
                ==> sizes.max_exponent(OutputSectionId(i as u32), sections)
                <= macho_sections::tls_exponent(sections, sizes, count),
        macho_sections::tls_exponent(sections, sizes, count) == 0 || exists|i: int|
            0 <= i < count && (#[trigger] sections.infos()[i]).section_attributes.tls
                && sizes.max_exponent(OutputSectionId(i as u32), sections)
                == macho_sections::tls_exponent(sections, sizes, count),
    decreases count,
{
    if count > 0 {
        lemma_tls_exponent(sections, sizes, count - 1);
        let last = sections.infos()[count - 1];
        let before = macho_sections::tls_exponent(sections, sizes, count - 1);
        if before != 0 {
            let i = choose|i: int|
                0 <= i < count - 1 && (#[trigger] sections.infos()[i]).section_attributes.tls
                    && sizes.max_exponent(OutputSectionId(i as u32), sections) == before;
            assert(sections.infos()[i].section_attributes.tls);
        }
        assert(sections.infos()[count - 1] == last);
    }
}

/// Initial contents of thread-local variables are aligned for all of their sections, descriptors of
/// thread-local variables at least like addresses, and nothing is aligned less than before. The
/// alignment of other sections does not change.
pub proof fn lemma_thread_local_data_is_aligned_alike<'data>(
    sections: &OutputSections<'data>,
    sizes: &OutputSectionPartMap<u64>,
    a: int,
    b: int,
)
    requires
        sections.count() <= u32::MAX,
        0 <= a < sections.count(),
        0 <= b < sections.count(),
    ensures
        ({
            let first = sections.infos()[a];
            let second = sections.infos()[b];
            let needed = macho_sections::needed_exponent(sections, sizes, a);
            &&& first.section_attributes.tls && second.section_attributes.tls
                ==> sizes.max_exponent(OutputSectionId(b as u32), sections) <= needed
            &&& first.section_attributes.ty == 19 ==> needed >= 3
            &&& needed >= first.min_alignment.exp()
            &&& !first.section_attributes.tls && first.section_attributes.ty != 19 ==> needed
                == first.min_alignment.exp()
        }),
{
    lemma_tls_exponent(sections, sizes, sections.count());
}

/// The sections of an object are written to the parts that they go to, and to no others. Parts keep
/// their sizes and positions do not go back. After an error nothing more is written.
pub proof fn lemma_objects_write_to_their_parts<'a, 'data>(
    start: ObjectProgress,
    list: Seq<ObjectSection<'a>>,
    object: &ObjectLayout<'data>,
    layout: &Layout<'data>,
    count: int,
    part: int,
)
    requires
        0 <= count <= list.len(),
        0 <= part < start.parts.len(),
        start.parts.len() == start.positions.len(),
        forall|i: int|
            0 <= i < list.len() ==> ((#[trigger] list[i]).slot is Loaded ==> list[i].part_id.0
                != part && list[i].part_id.0 < start.parts.len()),
    ensures
        ({
            let end = macho_objects::object_written(start, list, object, layout, count);
            &&& end.parts.len() == start.parts.len()
            &&& end.positions.len() == start.positions.len()
            &&& end.parts[part] == start.parts[part]
            &&& end.positions[part] == start.positions[part]
            &&& start.error is Some ==> end == start
            &&& end.written.len() <= start.written.len() + count
        }),
    decreases count,
{
    if count > 0 {
        lemma_objects_write_to_their_parts(start, list, object, layout, count - 1, part);
        assert(list[count - 1].slot is Loaded ==> list[count - 1].part_id.0 != part);
    }
}

/// Each section that is loaded and written without an error leaves what was written of it, in the
/// order of the sections. Others leave nothing.
pub proof fn lemma_loaded_sections_are_written<'a, 'data>(
    start: ObjectProgress,
    list: Seq<ObjectSection<'a>>,
    object: &ObjectLayout<'data>,
    layout: &Layout<'data>,
    i: int,
)
    requires
        0 <= i < list.len(),
        macho_objects::object_written(start, list, object, layout, i + 1).error is None,
    ensures
        ({
            let before = macho_objects::object_written(start, list, object, layout, i);
            let after = macho_objects::object_written(start, list, object, layout, i + 1);
            &&& before.error is None
            &&& list[i].slot is Loaded ==> after.written.len() == before.written.len() + 1
                && after.written.drop_last() == before.written
            &&& !(list[i].slot is Loaded) ==> after == before
        }),
{
    let before = macho_objects::object_written(start, list, object, layout, i);
    let after = macho_objects::object_written(start, list, object, layout, i + 1);
    if list[i].slot is Loaded {
        assert(after.written.drop_last() =~= before.written);
    }
}

/// The symbol table and the table of fixups are aligned to 8 bytes, the code signature to 16, and stubs
/// to 4. Other sections of the linker are packed. The addresses that the dynamic linker fills in are
/// data that does not change after loading, and stubs are code.
pub proof fn lemma_sections_of_linker(id: SinglePartSectionId)
    ensures
        ({
            let index = id.index() as int;
            let exponent = macho_sections::built_in_exponent(index);
            &&& exponent == 3 <==> id is SymtabGlobal || id is ChainedFixupTable
            &&& exponent == 4 <==> id is CodeSignature
            &&& exponent == 2 <==> id is PltGot
            &&& exponent == 0 || exponent == 2 || exponent == 3 || exponent == 4
            &&& macho_sections::built_in_segment(index) == Some(macho_attributes::text_name())
                <==> id is PltGot
            &&& macho_sections::built_in_segment(index) is Some <==> id is Got || id is PltGot
            &&& id is Got ==> macho_sections::built_in_segment(index) == Some(
                macho_attributes::data_const_name(),
            )
            &&& macho_sections::built_in_flags(index) & 0x8000_0400 != 0 <==> id is PltGot
            &&& id is Got ==> macho_sections::built_in_flags(index) & 0xff == 6
            &&& id is PltGot ==> macho_sections::built_in_flags(index) & 0xff == 8
        }),
{
    assert(0x8000_0408u32 & 0x8000_0400 != 0 && 6u32 & 0x8000_0400 == 0 && 0u32 & 0x8000_0400 == 0
        && 6u32 & 0xff == 6 && 0x8000_0408u32 & 0xff == 8) by (bit_vector);
    assert(macho_attributes::text_name()[2] != macho_attributes::data_const_name()[2]);
}

/// A symbol is hidden from other files if and only if its bit for that is set, whatever its other bits.
pub proof fn lemma_hidden_symbols(entry: SymtabEntry)
    ensures
        entry.spec_visibility() is Hidden <==> entry.n_type & 0x10 != 0,
        entry.spec_visibility() is Default <==> entry.n_type & 0x10 == 0,
{
    let bits = entry.n_type;
    assert(bits & 0x10 == 0x10 <==> bits & 0x10 != 0) by (bit_vector);
}

} // verus!
