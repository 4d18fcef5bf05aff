//! How output sections come together.
use crate::alignment::Alignment;
use crate::expression::Expression;
use crate::only_if;
use crate::output_section_id::{OutputSectionId, PartId};
use crate::output_section_map::DefaultValue;
use crate::output_sections::{
    CustomSectionDetails, GnuBuildIdPlacement, OnlyIfPlacement, OutputSections, SecondaryOrder,
    SectionKind, SectionLocationInfo, SectionOutputInfo,
};
use crate::output_sections_update;
use crate::output_sections_update::NamedSection;
use crate::record_layout::OutputRecordLayout;
use crate::secondary_sections;
use crate::section_classes;
use vstd::prelude::*;

verus! {

/// A section that is named again keeps what it is, is aligned for all that name it, and is described
/// by the last one that says something.
pub proof fn lemma_named_again<'data>(named: NamedSection<'data>, info: SectionOutputInfo<'data>)
    ensures
        ({
            let after = named.added_to(info);
            &&& after.kind == info.kind
            &&& after.section_attributes == info.section_attributes
            &&& after.secondary_order == info.secondary_order
            &&& after.input_order == info.input_order
            &&& after.min_alignment.exp() >= info.min_alignment.exp()
            &&& after.min_alignment.exp() >= named.min_alignment.exp()
            &&& after.min_alignment.exp() == info.min_alignment.exp() || after.min_alignment.exp()
                == named.min_alignment.exp()
            &&& named.location_info is Some ==> after.location_info == named.location_info
            &&& named.location_info is None ==> after.location_info == info.location_info
            &&& named.region_name is Some ==> after.region_name == named.region_name
            &&& named.region_name is None ==> after.region_name == info.region_name
            &&& named.fill is Some ==> after.fill == named.fill
            &&& named.fill is None ==> after.fill == info.fill
            &&& named.phdrs@.len() > 0 ==> after.phdrs == named.phdrs
            &&& named.phdrs@.len() == 0 ==> after.phdrs == info.phdrs
        }),
{
}

/// A section that the arguments give an address is placed there, whatever was known of its place. No
/// other section moves, and nothing else changes.
pub proof fn lemma_starts_are_overridden<'data>(
    infos: Seq<SectionOutputInfo<'data>>,
    id: OutputSectionId,
    address: u64,
    other: int,
)
    requires
        id.0 < infos.len(),
        0 <= other < infos.len(),
        other != id.0,
    ensures
        ({
            let after = output_sections_update::with_start(infos, Some(id), Some(address));
            let before = infos[id.0 as int];
            let moved = after[id.0 as int];
            &&& after.len() == infos.len()
            &&& after[other] == infos[other]
            &&& moved.location_info matches Some(place) && place.location == Some(
                Expression::<'data>::Number(address),
            )
            &&& moved == SectionOutputInfo { location_info: moved.location_info, ..before }
            &&& before.location_info matches Some(place) ==> (moved.location_info->0).at_location
                == place.at_location && (moved.location_info->0).overlay == place.overlay
        }),
        output_sections_update::with_start(infos, Some(id), None) == infos,
        output_sections_update::with_start(infos, None, Some(address)) == infos,
{
}

/// An input goes to a part of its output section, and to the one for its alignment if the section has
/// a part for each.
pub proof fn lemma_inputs_go_to_part_of_their_alignment<'data>(
    sections: &OutputSections<'data>,
    id: OutputSectionId,
    alignment: Alignment,
)
    requires
        sections.wf(),
        sections.has(id),
        alignment.exp() <= 16,
    ensures
        ({
            let part = sections.part_for(id, alignment);
            &&& sections.platform.section_of(part.0 as int) == id.0
            &&& id.0 >= sections.platform.regular_base() ==> sections.alignment_of(part)
                == alignment.exp()
        }),
{
    let platform = sections.platform;
    sections.lemma_numbers_parts(id);
    let part = sections.part_for(id, alignment);
    crate::output_section_id::lemma_part_round_trip(platform, id.0 as int, part.0 as int);
    if id.0 >= platform.regular_base() {
        crate::output_section_id::lemma_alignment_round_trip(
            platform,
            id.0 as int,
            part.0 as int,
        );
    }
}

proof fn lemma_first_with_key<'data>(
    sections: &OutputSections<'data>,
    key: Seq<u8>,
    from: int,
    to: int,
)
    requires
        0 <= from <= to <= u32::MAX,
    ensures
        match sections.first_with_key(key, from, to) {
            Some(id) => from <= id.0 < to && sections.has_key(id.0 as int, key) && forall|i: int|
                from <= i < id.0 ==> !#[trigger] sections.has_key(i, key),
            None => forall|i: int| from <= i < to ==> !#[trigger] sections.has_key(i, key),
        },
    decreases to - from,
{
    if from < to {
        lemma_first_with_key(sections, key, from + 1, to);
    }
}

/// A name stands for the section that was recorded for it, or else for the first section of that name.
pub proof fn lemma_names_stand_for_sections<'data>(sections: &OutputSections<'data>, name: Seq<u8>)
    requires
        sections.wf(),
        sections.count() <= u32::MAX,
        sections.platform.identity_from_name,
    ensures
        ({
            let key = crate::output_sections::name_key(name);
            let recorded = sections.custom_by_identity@.contains_key(key);
            match sections.by_name(name) {
                Some(id) => {
                    &&& sections.has(id)
                    &&& recorded ==> id.0 == sections.custom_by_identity@[key]
                    &&& !recorded ==> sections.has_key(id.0 as int, key) && forall|i: int|
                        0 <= i < id.0 ==> !#[trigger] sections.has_key(i, key)
                },
                None => !recorded && forall|i: int|
                    0 <= i < sections.count() ==> !#[trigger] sections.has_key(i, key),
            }
        }),
{
    lemma_first_with_key(
        sections,
        crate::output_sections::name_key(name),
        0,
        sections.count(),
    );
}

spec fn adding<'data>(
    sections: &OutputSections<'data>,
    customs: Seq<CustomSectionDetails<'data>>,
    count: int,
) -> bool {
    let (infos, identities) = sections.after_adding(customs, count);
    &&& sections.count() <= infos.len() <= sections.count() + count
    &&& forall|key: Seq<u8>| #[trigger]
        identities.contains_key(key) ==> identities[key] < infos.len()
    &&& forall|i: int|
        0 <= i < sections.count() ==> (#[trigger] infos[i]).kind == sections.infos()[i].kind
            && infos[i].min_alignment.exp() >= sections.infos()[i].min_alignment.exp()
    &&& forall|i: int|
        0 <= i < count ==> {
            let key = (#[trigger] customs[i]).identity.key();
            &&& identities.contains_key(key)
            &&& infos[identities[key] as int].min_alignment.exp() >= customs[i].alignment.exp()
        }
}

proof fn lemma_adding<'data>(
    sections: &OutputSections<'data>,
    customs: Seq<CustomSectionDetails<'data>>,
    count: int,
)
    requires
        sections.wf(),
        0 <= count <= customs.len(),
        sections.count() + customs.len() <= u32::MAX,
        sections.platform.comment_section_id matches Some(comment) ==> sections.has(comment),
    ensures
        adding(sections, customs, count),
    decreases count,
{
    if count > 0 {
        lemma_adding(sections, customs, count - 1);
        let custom = customs[count - 1];
        let key = custom.identity.key();
        let (before, earlier) = sections.after_adding(customs, count - 1);
        let (infos, identities) = sections.after_adding(customs, count);
        lemma_first_with_key(sections, key, 0, sections.platform.regular_base());
        assert(earlier.contains_key(key) ==> earlier[key] < before.len());
        assert forall|i: int| 0 <= i < count implies {
            let own = (#[trigger] customs[i]).identity.key();
            &&& identities.contains_key(own)
            &&& infos[identities[own] as int].min_alignment.exp() >= customs[i].alignment.exp()
        } by {
            let own = customs[i].identity.key();
            if i < count - 1 {
                assert(earlier.contains_key(own) && earlier[own] < before.len());
            }
        }
        assert forall|other: Seq<u8>| #[trigger] identities.contains_key(other) implies identities[other]
            < infos.len() by {
            if other != key {
                assert(earlier.contains_key(other));
            }
        }
        assert forall|i: int| 0 <= i < sections.count() implies (#[trigger] infos[i]).kind
            == sections.infos()[i].kind && infos[i].min_alignment.exp()
            >= sections.infos()[i].min_alignment.exp() by {
            assert(before[i].kind == sections.infos()[i].kind);
        }
    }
}

/// Each input that asks for an output section gets one, which is aligned for it. Inputs that ask for
/// the same identity share a section, because an identity stands for one. Sections that were there
/// stay what they are and are aligned no less.
pub proof fn lemma_inputs_get_sections<'data>(
    sections: &OutputSections<'data>,
    customs: Seq<CustomSectionDetails<'data>>,
    i: int,
)
    requires
        sections.wf(),
        0 <= i < customs.len(),
        sections.count() + customs.len() <= u32::MAX,
        sections.platform.comment_section_id matches Some(comment) ==> sections.has(comment),
    ensures
        ({
            let (infos, identities) = sections.after_adding(customs, customs.len() as int);
            let key = customs[i].identity.key();
            &&& identities.contains_key(key)
            &&& identities[key] < infos.len()
            &&& infos[identities[key] as int].min_alignment.exp() >= customs[i].alignment.exp()
            &&& infos.len() >= sections.count()
            &&& forall|k: int|
                0 <= k < sections.count() ==> (#[trigger] infos[k]).kind == sections.infos()[k].kind
                    && infos[k].min_alignment.exp() >= sections.infos()[k].min_alignment.exp()
        }),
{
    lemma_adding(sections, customs, customs.len() as int);
    assert(customs[i].identity.key() == customs[i].identity.key());
}

/// A section that is merged into another one after a linker script has moved the location counter
/// leaves the other one where it is in memory, and makes it reach as far as the end of either. In the
/// file, an empty section moves to what is merged into it.
pub proof fn lemma_merged_section_reaches_over_both(
    primary: OutputRecordLayout,
    secondary: OutputRecordLayout,
    merged: OutputRecordLayout,
)
    requires
        secondary_sections::with_secondary(primary, secondary, true) == Some(merged),
    ensures
        merged.mem_offset == primary.mem_offset,
        merged.mem_offset + merged.mem_size >= primary.mem_offset + primary.mem_size,
        merged.mem_offset + merged.mem_size >= secondary.mem_offset + secondary.mem_size,
        merged.mem_offset + merged.mem_size == primary.mem_offset + primary.mem_size
            || merged.mem_offset + merged.mem_size == secondary.mem_offset + secondary.mem_size,
        merged.file_offset + merged.file_size >= secondary.file_offset + secondary.file_size,
        primary.file_size > 0 || primary.mem_size > 0 ==> merged.file_offset == primary.file_offset
            && merged.lma_offset == primary.lma_offset && merged.file_offset + merged.file_size
            >= primary.file_offset + primary.file_size,
        primary.file_size == 0 && primary.mem_size == 0 && secondary.file_size > 0
            && secondary.file_offset >= primary.file_offset ==> merged.file_offset
            == secondary.file_offset && merged.file_size == secondary.file_size,
        merged.alignment.exp() >= primary.alignment.exp(),
        secondary.mem_size > 0 ==> merged.alignment.exp() >= secondary.alignment.exp(),
        secondary.mem_size == 0 ==> merged.alignment == primary.alignment,
{
}

/// A section that is merged into another one otherwise makes it larger by its own sizes.
pub proof fn lemma_merged_section_has_sizes_of_both(
    primary: OutputRecordLayout,
    secondary: OutputRecordLayout,
)
    ensures
        match secondary_sections::with_secondary(primary, secondary, false) {
            Some(merged) => {
                &&& merged.mem_size - primary.mem_size == secondary.mem_size
                &&& merged.file_size - primary.file_size == secondary.file_size
                &&& merged.mem_offset == primary.mem_offset
                &&& merged.file_offset == primary.file_offset
                &&& merged.lma_offset == primary.lma_offset
                &&& merged.alignment.exp() >= primary.alignment.exp()
                &&& secondary.mem_size > 0 ==> merged.alignment.exp() >= secondary.alignment.exp()
                &&& secondary.mem_size == 0 ==> merged.alignment == primary.alignment
            },
            None => primary.mem_size + secondary.mem_size > u64::MAX || primary.file_size
                + secondary.file_size > u64::MAX,
        },
{
}

/// The size in memory of the first sections.
pub open spec fn total_mem_size(layouts: Seq<OutputRecordLayout>, count: int) -> int
    decreases count,
{
    if count <= 0 {
        0
    } else {
        total_mem_size(layouts, count - 1) + layouts[count - 1].mem_size
    }
}

proof fn lemma_total_after_update(
    layouts: Seq<OutputRecordLayout>,
    at: int,
    layout: OutputRecordLayout,
    count: int,
)
    requires
        0 <= at < layouts.len(),
        0 <= count <= layouts.len(),
    ensures
        total_mem_size(layouts.update(at, layout), count) == total_mem_size(layouts, count) + if at
            < count {
            layout.mem_size - layouts[at].mem_size
        } else {
            0
        },
    decreases count,
{
    if count > 0 {
        lemma_total_after_update(layouts, at, layout, count - 1);
    }
}

/// Merging moves no bytes in or out: unless a linker script moves the location counter, all sections
/// together are as large as before. Sections that are neither merged nor merged into do not change.
pub proof fn lemma_merging_keeps_total_size<'data>(
    layouts: Seq<OutputRecordLayout>,
    sections: &OutputSections<'data>,
    count: int,
    other: int,
)
    requires
        sections.wf(),
        layouts.len() == sections.count(),
        0 <= count <= sections.count(),
        0 <= other < layouts.len(),
        secondary_sections::merged_after(layouts, sections, count) is Ok,
    ensures
        ({
            let merged = secondary_sections::merged_after(layouts, sections, count)->Ok_0;
            &&& merged.len() == layouts.len()
            &&& (forall|i: int|
                0 <= i < count && (#[trigger] sections.infos()[i]).kind is Secondary
                    ==> !secondary_sections::has_location_counters(sections.infos()[i]))
                ==> total_mem_size(merged, merged.len() as int) == total_mem_size(
                layouts,
                layouts.len() as int,
            )
            &&& (forall|i: int|
                0 <= i < count ==> ((#[trigger] sections.infos()[i]).kind matches
                    SectionKind::Secondary(primary) ==> primary.0 != other && i != other))
                ==> merged[other] == layouts[other]
        }),
    decreases count,
{
    if count > 0 {
        lemma_merging_keeps_total_size(layouts, sections, count - 1, other);
        let info = sections.infos()[count - 1];
        assert(sections.infos()[count - 1] == info);
        let before = secondary_sections::merged_after(layouts, sections, count - 1)->Ok_0;
        if info.kind is Secondary {
            let primary = info.kind->Secondary_0.0 as int;
            let id = count - 1;
            let merged = secondary_sections::with_secondary(
                before[primary],
                before[id],
                secondary_sections::has_location_counters(info),
            )->0;
            assert(sections.infos()[primary].kind is Primary);
            assert(primary != id);
            let emptied = before.update(id, OutputRecordLayout::spec_default());
            lemma_total_after_update(
                before,
                id,
                OutputRecordLayout::spec_default(),
                before.len() as int,
            );
            lemma_total_after_update(emptied, primary, merged, before.len() as int);
        }
    }
}

/// The part of an input is one of the section that its identity stands for.
pub proof fn lemma_inputs_go_to_their_section<'data>(
    sections: &OutputSections<'data>,
    custom: CustomSectionDetails<'data>,
    part: PartId,
)
    requires
        sections.wf(),
        custom.alignment.exp() <= 16,
        sections.goes_into(custom, part),
    ensures
        sections.custom_by_identity@.contains_key(custom.identity.key()),
        sections.platform.section_of(part.0 as int)
            == sections.custom_by_identity@[custom.identity.key()],
{
    let id = sections.recorded(custom.identity.key())->0;
    lemma_inputs_go_to_part_of_their_alignment(sections, id, custom.alignment);
}

/// Without segments of a linker script, the sections that no rule places are those that inputs bring.
/// With such segments, they are those that name no segment, but neither the file header nor sections
/// that are excluded nor sections of the platform that scripts describe. Sections that are merged into
/// others are never among them.
pub proof fn lemma_sections_without_rule<'data>(
    sections: &OutputSections<'data>,
    id: int,
    has_custom_phdrs: bool,
    excluded: Seq<OutputSectionId>,
)
    requires
        0 <= id <= u32::MAX,
    ensures
        ({
            let info = sections.infos()[id];
            let orphan = section_classes::is_orphan(sections, id, has_custom_phdrs, excluded);
            &&& info.kind is Secondary ==> !orphan
            &&& !has_custom_phdrs && info.kind is Primary ==> (orphan <==> id
                >= sections.platform.built_in_count())
            &&& has_custom_phdrs && orphan ==> info.phdrs@.len() == 0 && id != 1
                && !excluded.contains(OutputSectionId(id as u32))
            &&& has_custom_phdrs && id >= sections.platform.built_in_count() && id != 1
                && info.kind is Primary && info.phdrs@.len() == 0 && !excluded.contains(
                OutputSectionId(id as u32),
            ) ==> orphan
            &&& has_custom_phdrs && id < sections.platform.built_in_count() && (info.kind matches
                SectionKind::Primary(identity) && sections.custom_by_identity@.contains_key(
                identity.key(),
            )) ==> !orphan
            &&& has_custom_phdrs && id < sections.platform.built_in_count() && (info.kind matches
                SectionKind::Primary(identity) && !sections.custom_by_identity@.contains_key(
                identity.key(),
            )) && info.phdrs@.len() == 0 && id != 1 && !excluded.contains(
                OutputSectionId(id as u32),
            ) ==> orphan
        }),
{
}

/// A section that a script lists is emitted where it is listed. One with two places is emitted at the
/// chosen one only.
pub proof fn lemma_listed_sections_are_emitted<'data>(
    sections: &OutputSections<'data>,
    listed: Seq<OutputSectionId>,
    count: int,
)
    requires
        0 < count <= listed.len(),
    ensures
        ({
            let before = section_classes::emitted_slots(sections, listed, count - 1);
            let after = section_classes::emitted_slots(sections, listed, count);
            let id = listed[count - 1];
            let choice = sections.slots(id).choice();
            &&& !sections.has_slots(id) ==> after == before.push(id)
            &&& sections.has_slots(id) && choice is Some && (choice->0).order_index == count - 1
                ==> after == before.push(id)
            &&& sections.has_slots(id) && choice is Some && (choice->0).order_index != count - 1
                ==> after == before
        }),
{
}

/// The note with the ID of the build goes to its own section, or to that of a linker script, in the
/// part for an alignment of four bytes. If it is discarded, it goes nowhere.
pub proof fn lemma_build_id_goes_to_section<'data>(sections: &OutputSections<'data>)
    requires
        sections.wf(),
        sections.gnu_build_id_placement matches GnuBuildIdPlacement::Merge(target) ==> sections.has(
            target,
        ),
    ensures
        ({
            let part = sections.build_id_part();
            let own = sections.platform.note_gnu_build_id_section_id;
            &&& own is None ==> part is None
            &&& sections.gnu_build_id_placement is Discard ==> part is None
            &&& own is Some && (own->0).0 < sections.platform.regular_base()
                && sections.gnu_build_id_placement is Builtin ==> part == Some(PartId((own->0).0))
            &&& own is Some && (sections.gnu_build_id_placement matches GnuBuildIdPlacement::Merge(
                target,
            ) && target != own->0 && target.0 >= sections.platform.regular_base()) ==> part is Some
                && sections.platform.section_of((part->0).0 as int) == (
            sections.gnu_build_id_placement->Merge_0).0 && sections.alignment_of(part->0) == 2
        }),
{
    if sections.gnu_build_id_placement is Merge {
        let target = sections.gnu_build_id_placement->Merge_0;
        if target.0 >= sections.platform.regular_base() {
            sections.lemma_numbers_parts(target);
            let part = sections.platform.base_part(target.0 as int) + 14;
            crate::output_section_id::lemma_part_round_trip(
                sections.platform,
                target.0 as int,
                part,
            );
            crate::output_section_id::lemma_alignment_round_trip(
                sections.platform,
                target.0 as int,
                part,
            );
        }
    }
}

/// A section whose place is chosen is in the segments that the place names, or else in those that the
/// section names.
pub proof fn lemma_chosen_place_names_segments<'data>(
    info: SectionOutputInfo<'data>,
    placement: OnlyIfPlacement<'data>,
)
    ensures
        ({
            let after = only_if::placed(info, placement);
            &&& after.location_info == Some(placement.location_info)
            &&& placement.phdrs@.len() > 0 ==> after.phdrs == placement.phdrs
            &&& placement.phdrs@.len() == 0 ==> after.phdrs == info.phdrs
            &&& after == SectionOutputInfo {
                location_info: after.location_info,
                phdrs: after.phdrs,
                ..info
            }
        }),
{
}

/// A section that is added to be merged into another one is of the same kind as that one, and in the
/// same region. It is where it is told to be, or else where the other one is.
pub proof fn lemma_new_secondary_sections<'data>(
    sections: &OutputSections<'data>,
    info: SectionOutputInfo<'data>,
    primary: OutputSectionId,
    min_alignment: Alignment,
    secondary_order: Option<SecondaryOrder>,
    location_info: Option<SectionLocationInfo<'data>>,
    input_order: bool,
)
    requires
        sections.is_fresh_secondary(
            info,
            primary,
            min_alignment,
            secondary_order,
            location_info,
            input_order,
        ),
    ensures
        info.kind == SectionKind::<'data>::Secondary(primary),
        info.section_attributes == sections.info(primary).section_attributes,
        info.region_name == sections.info(primary).region_name,
        info.fill == sections.info(primary).fill,
        info.min_alignment == min_alignment,
        location_info is Some ==> info.location_info == location_info,
        location_info is None ==> info.location_info == sections.info(primary).location_info,
        info.input_order == input_order,
        info.secondary_order == secondary_order,
{
}

} // verus!
