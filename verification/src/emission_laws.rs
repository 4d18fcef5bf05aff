//! What holds of the sections of a Mach-O file that are emitted.
use crate::layout_laws;
use crate::macho_attributes;
use crate::macho_order;
use crate::macho_order::OrderView;
use crate::macho_sections;
use crate::macho_segments;
use crate::output_order::OrderEvent;
use crate::output_section_id::OutputSectionId;
use crate::output_sections::{OutputSections, SectionKind, SectionOutputInfo};
use crate::section_classes;
use crate::section_classes::{CustomSectionIds, OrphanClass};
use vstd::prelude::*;

verus! {

/// Whether the sections that the linker adds stand for themselves and are in the segments that they
/// belong to.
pub open spec fn has_built_ins<'data>(sections: &OutputSections<'data>) -> bool {
    forall|i: int|
        0 <= i < 11 ==> (#[trigger] sections.infos()[i]).kind is Primary
            && macho_segments::segment_of(sections.infos()[i].kind)
            == macho_sections::built_in_segment(i)
}

/// The sections that the linker adds to Mach-O files stand for themselves, as long as only other
/// things that are known of them change.
pub proof fn lemma_has_built_ins<'data>(
    sections: &OutputSections<'data>,
    added: Seq<SectionOutputInfo<'data>>,
)
    requires
        sections.count() >= 11,
        added.len() == 11,
        forall|i: int|
            0 <= i < 11 ==> macho_sections::describes_built_in(#[trigger] added[i], i)
                && sections.infos()[i].kind == added[i].kind,
    ensures
        has_built_ins(sections),
{
    assert forall|i: int| 0 <= i < 11 implies (#[trigger] sections.infos()[i]).kind is Primary
        && macho_segments::segment_of(sections.infos()[i].kind)
        == macho_sections::built_in_segment(i) by {
        assert(macho_sections::describes_built_in(added[i], i));
    }
}

/// The section that a section is merged into, or the section itself.
pub open spec fn owner<'data>(
    sections: &OutputSections<'data>,
    id: OutputSectionId,
) -> OutputSectionId {
    match sections.info(id).kind {
        SectionKind::Primary(_) => id,
        SectionKind::Secondary(primary) => primary,
    }
}

spec fn class_rank(class: OrphanClass) -> int {
    match class {
        OrphanClass::Exec => 0,
        OrphanClass::Ro => 1,
        OrphanClass::Data => 2,
        OrphanClass::Tdata => 3,
        OrphanClass::Tbss => 4,
        OrphanClass::Bss => 5,
        OrphanClass::NonAlloc => 6,
    }
}

/// The place of a section in the order, with which sections of the same kind in the same segment
/// share it.
spec fn rank<'data>(sections: &OutputSections<'data>, id: OutputSectionId) -> int {
    let others = macho_order::other_segments(sections, sections.count());
    let class = class_rank(
        section_classes::spec_class_of(sections.info(id).section_attributes),
    );
    if id.0 == 1 {
        0
    } else if id.0 == 7 {
        1
    } else if id.0 == 4 {
        3
    } else if id.0 == 3 {
        5
    } else if id.0 == 2 {
        18int + others.len()
    } else if id.0 == 9 {
        18int + others.len() + 1
    } else if id.0 == 10 {
        18int + others.len() + 2
    } else if id.0 == 5 {
        18int + others.len() + 3
    } else if id.0 == 8 {
        18int + others.len() + 4
    } else {
        match macho_segments::segment_of(sections.info(id).kind) {
            None => -1,
            Some(segment) => if segment == macho_attributes::text_name() {
                2 + 2 * class
            } else if segment == macho_attributes::data_const_name() {
                6 + class
            } else if segment == macho_attributes::data_name() {
                12 + class
            } else {
                18 + others.index_of(segment)
            },
        }
    }
}

/// Whether the listed sections are different primary sections from some places of the order.
spec fn ranked<'data>(
    sections: &OutputSections<'data>,
    ids: Seq<OutputSectionId>,
    low: int,
    high: int,
) -> bool {
    &&& ids.no_duplicates()
    &&& forall|k: int|
        0 <= k < ids.len() ==> low <= rank(sections, #[trigger] ids[k]) < high && sections.info(
            ids[k],
        ).kind is Primary
}

proof fn lemma_ranked_join<'data>(
    sections: &OutputSections<'data>,
    a: Seq<OutputSectionId>,
    b: Seq<OutputSectionId>,
    low: int,
    middle: int,
    high: int,
)
    requires
        ranked(sections, a, low, middle),
        ranked(sections, b, middle, high),
        low <= middle <= high,
    ensures
        ranked(sections, a + b, low, high),
{
    let all = a + b;
    assert forall|k: int| 0 <= k < all.len() implies low <= rank(sections, #[trigger] all[k]) < high
        && sections.info(all[k]).kind is Primary by {
        if k < a.len() {
            assert(all[k] == a[k]);
        } else {
            assert(all[k] == b[k - a.len()]);
        }
    }
    assert forall|i: int, j: int| 0 <= i < all.len() && 0 <= j < all.len() && i != j implies all[i]
        != all[j] by {
        if i < a.len() && j >= a.len() {
            assert(rank(sections, a[i]) < middle);
            assert(rank(sections, b[j - a.len()]) >= middle);
        }
        if j < a.len() && i >= a.len() {
            assert(rank(sections, a[j]) < middle);
            assert(rank(sections, b[i - a.len()]) >= middle);
        }
    }
}

proof fn lemma_in_segment<'data>(
    sections: &OutputSections<'data>,
    ids: Seq<OutputSectionId>,
    segment: Seq<u8>,
    count: int,
)
    requires
        ids.no_duplicates(),
        0 <= count <= ids.len(),
    ensures
        macho_order::in_segment(sections, ids, segment, count).no_duplicates(),
        forall|k: int|
            0 <= k < macho_order::in_segment(sections, ids, segment, count).len()
                ==> macho_segments::segment_of(
                sections.info(
                    #[trigger] macho_order::in_segment(sections, ids, segment, count)[k],
                ).kind,
            ) == Some(segment) && ids.take(count).contains(
                macho_order::in_segment(sections, ids, segment, count)[k],
            ),
    decreases count,
{
    let all = macho_order::in_segment(sections, ids, segment, count);
    if count > 0 {
        lemma_in_segment(sections, ids, segment, count - 1);
        let before = macho_order::in_segment(sections, ids, segment, count - 1);
        let last = ids[count - 1];
        assert forall|k: int| 0 <= k < before.len() implies #[trigger] before[k] != last
            && ids.take(count).contains(before[k]) by {
            let earlier = ids.take(count - 1);
            assert(earlier.contains(before[k]));
            let p = choose|p: int| 0 <= p < earlier.len() && earlier[p] == before[k];
            assert(ids.take(count)[p] == before[k]);
            assert(ids[p] == before[k]);
        }
        assert(ids.take(count)[count - 1] == last);
        assert forall|k: int| 0 <= k < all.len() implies macho_segments::segment_of(
            sections.info(#[trigger] all[k]).kind,
        ) == Some(segment) && ids.take(count).contains(all[k]) by {
            if k < before.len() {
                assert(all[k] == before[k]);
            }
        }
        assert forall|i: int, j: int| 0 <= i < all.len() && 0 <= j < all.len() && i != j implies
            all[i] != all[j] by {
            if i < before.len() {
                assert(all[i] == before[i]);
            }
            if j < before.len() {
                assert(all[j] == before[j]);
            }
        }
    }
}

proof fn lemma_orphans_differ<'data>(
    sections: &OutputSections<'data>,
    class: OrphanClass,
    count: int,
)
    requires
        sections.wf(),
        0 <= count <= sections.count(),
    ensures
        section_classes::orphans(sections, false, Seq::empty(), class, count).no_duplicates(),
    decreases count,
{
    let all = section_classes::orphans(sections, false, Seq::empty(), class, count);
    if count > 0 {
        assert(sections.platform.base_part(sections.count()) <= u32::MAX);
        lemma_orphans_differ(sections, class, count - 1);
        let before = section_classes::orphans(sections, false, Seq::empty(), class, count - 1);
        assert forall|k: int| 0 <= k < before.len() implies (#[trigger] before[k]).0 < count
            - 1 by {
            assert(before.contains(before[k]));
            section_classes::lemma_orphans(
                sections,
                false,
                Seq::empty(),
                class,
                count - 1,
                before[k],
            );
        }
        assert forall|i: int, j: int| 0 <= i < all.len() && 0 <= j < all.len() && i != j implies
            all[i] != all[j] by {
            if i < before.len() {
                assert(all[i] == before[i]);
            }
            if j < before.len() {
                assert(all[j] == before[j]);
            }
        }
    }
}

/// Sections from inputs that are of one kind and ask for one segment share their place in the
/// order.
proof fn lemma_class_ranked<'data>(
    sections: &OutputSections<'data>,
    custom: &CustomSectionIds,
    class: OrphanClass,
    segment: Seq<u8>,
    place: int,
)
    requires
        sections.wf(),
        sections.platform == macho_segments::spec_platform_sections(),
        macho_order::lists_orphans(sections, custom, false),
        place == (if segment == macho_attributes::text_name() {
            2 + 2 * class_rank(class)
        } else if segment == macho_attributes::data_const_name() {
            6 + class_rank(class)
        } else {
            12 + class_rank(class)
        }),
        segment == macho_attributes::text_name() || segment == macho_attributes::data_const_name()
            || segment == macho_attributes::data_name(),
    ensures
        ranked(
            sections,
            macho_order::class_in_segment(sections, custom, class, segment),
            place,
            place + 1,
        ),
{
    let ids = custom.of(class);
    assert(ids == section_classes::orphans(
        sections,
        false,
        Seq::empty(),
        class,
        sections.count(),
    ));
    lemma_orphans_differ(sections, class, sections.count());
    lemma_in_segment(sections, ids, segment, ids.len() as int);
    macho_attributes::lemma_known_names();
    let found = macho_order::class_in_segment(sections, custom, class, segment);
    assert(ids.take(ids.len() as int) =~= ids);
    assert forall|k: int| 0 <= k < found.len() implies place <= rank(
        sections,
        #[trigger] found[k],
    ) < place + 1 && sections.info(found[k]).kind is Primary by {
        assert(ids.contains(found[k]));
        section_classes::lemma_orphans(
            sections,
            false,
            Seq::empty(),
            class,
            sections.count(),
            found[k],
        );
    }
}

proof fn lemma_data_ranked<'data>(
    sections: &OutputSections<'data>,
    custom: &CustomSectionIds,
    segment: Seq<u8>,
    thread_local: bool,
    base: int,
)
    requires
        sections.wf(),
        sections.platform == macho_segments::spec_platform_sections(),
        macho_order::lists_orphans(sections, custom, false),
        (segment == macho_attributes::data_const_name() && base == 6) || (segment
            == macho_attributes::data_name() && base == 12),
    ensures
        ranked(
            sections,
            macho_order::data_sections(sections, custom, segment, thread_local),
            base,
            base + 6,
        ),
{
    macho_attributes::lemma_known_names();
    let exec = macho_order::class_in_segment(sections, custom, OrphanClass::Exec, segment);
    let ro = macho_order::class_in_segment(sections, custom, OrphanClass::Ro, segment);
    let data = macho_order::class_in_segment(sections, custom, OrphanClass::Data, segment);
    let tdata = macho_order::class_in_segment(sections, custom, OrphanClass::Tdata, segment);
    let tbss = macho_order::class_in_segment(sections, custom, OrphanClass::Tbss, segment);
    let bss = macho_order::class_in_segment(sections, custom, OrphanClass::Bss, segment);
    let none: Seq<OutputSectionId> = Seq::empty();
    lemma_class_ranked(sections, custom, OrphanClass::Exec, segment, base);
    lemma_class_ranked(sections, custom, OrphanClass::Ro, segment, base + 1);
    lemma_class_ranked(sections, custom, OrphanClass::Data, segment, base + 2);
    lemma_class_ranked(sections, custom, OrphanClass::Tdata, segment, base + 3);
    lemma_class_ranked(sections, custom, OrphanClass::Tbss, segment, base + 4);
    lemma_class_ranked(sections, custom, OrphanClass::Bss, segment, base + 5);
    lemma_ranked_join(sections, exec, ro, base, base + 1, base + 2);
    lemma_ranked_join(sections, exec + ro, data, base, base + 2, base + 3);
    lemma_ranked_join(sections, tdata, tbss, base + 3, base + 4, base + 5);
    let thread = if thread_local {
        tdata + tbss
    } else {
        none
    };
    assert(ranked(sections, thread, base + 3, base + 5));
    lemma_ranked_join(sections, exec + ro + data, thread, base, base + 3, base + 5);
    lemma_ranked_join(sections, exec + ro + data + thread, bss, base, base + 5, base + 6);
}

proof fn lemma_text_ranked<'data>(sections: &OutputSections<'data>, custom: &CustomSectionIds)
    requires
        sections.wf(),
        sections.platform == macho_segments::spec_platform_sections(),
        macho_order::lists_orphans(sections, custom, false),
        has_built_ins(sections),
    ensures
        ranked(sections, macho_order::text_sections(sections, custom), 0, 6),
{
    let text = macho_attributes::text_name();
    let exec = macho_order::class_in_segment(sections, custom, OrphanClass::Exec, text);
    let ro = macho_order::class_in_segment(sections, custom, OrphanClass::Ro, text);
    let headers = seq![OutputSectionId(1), OutputSectionId(7)];
    let stubs = seq![OutputSectionId(4)];
    let got = seq![OutputSectionId(3)];
    assert(sections.infos()[1].kind is Primary);
    assert(sections.infos()[7].kind is Primary);
    assert(sections.infos()[4].kind is Primary);
    assert(sections.infos()[3].kind is Primary);
    assert(ranked(sections, headers, 0, 2));
    assert(ranked(sections, stubs, 3, 4));
    assert(ranked(sections, got, 5, 6));
    lemma_class_ranked(sections, custom, OrphanClass::Exec, text, 2);
    lemma_class_ranked(sections, custom, OrphanClass::Ro, text, 4);
    lemma_ranked_join(sections, headers, exec, 0, 2, 3);
    lemma_ranked_join(sections, headers + exec, stubs, 0, 3, 4);
    lemma_ranked_join(sections, headers + exec + stubs, ro, 0, 4, 5);
    lemma_ranked_join(sections, headers + exec + stubs + ro, got, 0, 5, 6);
}

proof fn lemma_others_ranked<'data>(sections: &OutputSections<'data>, count: int)
    requires
        sections.wf(),
        sections.count() >= 11,
        has_built_ins(sections),
        0 <= count <= macho_order::other_segments(sections, sections.count()).len(),
    ensures
        ranked(
            sections,
            macho_order::segment_by_segment(
                sections,
                macho_order::other_segments(sections, sections.count()),
                count,
            ),
            18,
            18 + count,
        ),
    decreases count,
{
    if count > 0 {
        let others = macho_order::other_segments(sections, sections.count());
        lemma_others_ranked(sections, count - 1);
        crate::macho_order_laws::lemma_other_names(sections, sections.count());
        let segment = others[count - 1];
        let ids = macho_order::all_ids(sections);
        assert(sections.platform.base_part(sections.count()) <= u32::MAX);
        assert(ids.no_duplicates());
        lemma_in_segment(sections, ids, segment, sections.count());
        let found = macho_order::in_segment(sections, ids, segment, sections.count());
        assert(!macho_order::is_known_segment(segment));
        assert(others.index_of(segment) == count - 1) by {
            assert(others.contains(segment));
        }
        assert forall|k: int| 0 <= k < found.len() implies 18 + count - 1 <= rank(
            sections,
            #[trigger] found[k],
        ) < 18 + count && sections.info(found[k]).kind is Primary by {
            if found[k].0 < 11 {
                assert(sections.infos()[found[k].0 as int].kind is Primary);
            }
        }
        lemma_ranked_join(
            sections,
            macho_order::segment_by_segment(sections, others, count - 1),
            found,
            18,
            18 + count - 1,
            18 + count,
        );
    }
}

proof fn lemma_list_ranked<'data>(sections: &OutputSections<'data>, custom: &CustomSectionIds)
    requires
        sections.wf(),
        sections.platform == macho_segments::spec_platform_sections(),
        macho_order::lists_orphans(sections, custom, false),
        has_built_ins(sections),
    ensures
        ranked(
            sections,
            macho_order::section_list(sections, custom),
            0,
            23int + macho_order::other_segments(sections, sections.count()).len(),
        ),
{
    let others = macho_order::other_segments(sections, sections.count());
    let last = 18int + others.len();
    let text = macho_order::text_sections(sections, custom);
    let data_const = macho_order::data_sections(
        sections,
        custom,
        macho_attributes::data_const_name(),
        false,
    );
    let data = macho_order::data_sections(sections, custom, macho_attributes::data_name(), true);
    let rest = macho_order::segment_by_segment(sections, others, others.len() as int);
    let tables = macho_order::table_sections();
    lemma_text_ranked(sections, custom);
    lemma_data_ranked(sections, custom, macho_attributes::data_const_name(), false, 6);
    lemma_data_ranked(sections, custom, macho_attributes::data_name(), true, 12);
    lemma_others_ranked(sections, others.len() as int);
    assert(ranked(sections, tables, last, last + 5)) by {
        assert(tables[0].0 == 2 && tables[1].0 == 9 && tables[2].0 == 10 && tables[3].0 == 5
            && tables[4].0 == 8);
        assert(sections.infos()[2].kind is Primary);
        assert(sections.infos()[9].kind is Primary);
        assert(sections.infos()[10].kind is Primary);
        assert(sections.infos()[5].kind is Primary);
        assert(sections.infos()[8].kind is Primary);
    }
    lemma_ranked_join(sections, text, data_const, 0, 6, 12);
    lemma_ranked_join(sections, text + data_const, data, 0, 12, 18);
    lemma_ranked_join(sections, text + data_const + data, rest, 0, 18, last);
    lemma_ranked_join(sections, text + data_const + data + rest, tables, 0, last, last + 5);
}

/// Whether the same sections are emitted by the same events.
spec fn same_emissions(a: Seq<OrderEvent>, b: Seq<OrderEvent>) -> bool {
    forall|i: int, id: OutputSectionId|
        layout_laws::emits(a, i, id) <==> #[trigger] layout_laws::emits(b, i, id)
}

proof fn lemma_ended_emissions<'data>(s: OrderView<'data>, target: Seq<bool>, count: int)
    ensures
        same_emissions(s.events, macho_order::ended(s, target, count).events),
    decreases count,
{
    if count > 0 {
        lemma_ended_emissions(s, target, count - 1);
        let before = macho_order::ended(s, target, count - 1).events;
        let after = macho_order::ended(s, target, count).events;
        assert(same_emissions(before, after));
        assert forall|i: int, id: OutputSectionId|
            layout_laws::emits(s.events, i, id) <==> #[trigger] layout_laws::emits(
            after,
            i,
            id,
        ) by {
            assert(layout_laws::emits(before, i, id) <==> layout_laws::emits(after, i, id));
        }
    }
}

proof fn lemma_started_emissions<'data>(
    s: OrderView<'data>,
    names: Seq<Seq<u8>>,
    target: Seq<bool>,
    count: int,
)
    ensures
        same_emissions(s.events, macho_order::started(s, names, target, count).events),
    decreases count,
{
    if count > 0 {
        lemma_started_emissions(s, names, target, count - 1);
        let before = macho_order::started(s, names, target, count - 1).events;
        let after = macho_order::started(s, names, target, count).events;
        assert(same_emissions(before, after));
        assert forall|i: int, id: OutputSectionId|
            layout_laws::emits(s.events, i, id) <==> #[trigger] layout_laws::emits(
            after,
            i,
            id,
        ) by {
            assert(layout_laws::emits(before, i, id) <==> layout_laws::emits(after, i, id));
        }
    }
}

/// Whether a list has a section among its first `count`.
spec fn among(ids: Seq<OutputSectionId>, count: int, id: OutputSectionId) -> bool {
    exists|k: int| 0 <= k < count && #[trigger] ids[k] == id
}

/// Whether no section is emitted twice, and those that are emitted belong to the first `count`
/// sections of a list.
spec fn emits_those<'data>(
    events: Seq<OrderEvent<'data>>,
    sections: &OutputSections<'data>,
    ids: Seq<OutputSectionId>,
    count: int,
) -> bool {
    &&& layout_laws::emits_once(events)
    &&& forall|i: int, id: OutputSectionId| #[trigger]
        layout_laws::emits(events, i, id) ==> among(ids, count, owner(sections, id))
}

proof fn lemma_emitted_emissions<'data>(
    s: OrderView<'data>,
    sections: &OutputSections<'data>,
    brought: Seq<OutputSectionId>,
    count: int,
    primary: OutputSectionId,
)
    requires
        layout_laws::emits_once(s.events),
        brought.no_duplicates(),
        0 <= count <= brought.len(),
        forall|k: int|
            0 <= k < brought.len() ==> owner(sections, #[trigger] brought[k]) == primary,
        forall|i: int, id: OutputSectionId| #[trigger]
            layout_laws::emits(s.events, i, id) ==> owner(sections, id) != primary,
    ensures
        layout_laws::emits_once(macho_order::emitted(s, brought, count).events),
        forall|i: int, id: OutputSectionId| #[trigger]
            layout_laws::emits(macho_order::emitted(s, brought, count).events, i, id) ==> (
            layout_laws::emits(s.events, i, id) || among(brought, count, id)),
    decreases count,
{
    if count > 0 {
        lemma_emitted_emissions(s, sections, brought, count - 1, primary);
        let before = macho_order::emitted(s, brought, count - 1).events;
        let after = macho_order::emitted(s, brought, count).events;
        let last = brought[count - 1];
        assert(after == before.push(OrderEvent::Section(last)));
        assert forall|i: int, id: OutputSectionId| #[trigger]
            layout_laws::emits(after, i, id) implies (layout_laws::emits(before, i, id)) || (i
            == before.len() && id == last) by {
        }
        assert forall|i: int| !(#[trigger] layout_laws::emits(before, i, last)) by {
            if layout_laws::emits(before, i, last) {
                if among(brought, count - 1, last) {
                    let k = choose|k: int| 0 <= k < count - 1 && #[trigger] brought[k] == last;
                    assert(brought[k] != brought[count - 1]);
                } else {
                    assert(owner(sections, last) == primary);
                }
            }
        }
        assert forall|i: int, id: OutputSectionId| #[trigger]
            layout_laws::emits(after, i, id) implies (layout_laws::emits(s.events, i, id) || among(
            brought,
            count,
            id,
        )) by {
            if layout_laws::emits(before, i, id) {
                if among(brought, count - 1, id) {
                    let k = choose|k: int| 0 <= k < count - 1 && #[trigger] brought[k] == id;
                    assert(brought[k] == id);
                }
            } else {
                assert(brought[count - 1] == id);
            }
        }
        assert forall|i: int, j: int, id: OutputSectionId|
            #![trigger layout_laws::emits(after, i, id), layout_laws::emits(after, j, id)]
            layout_laws::emits(after, i, id) && layout_laws::emits(after, j, id) implies i == j by {
            assert(layout_laws::emits(before, i, id) || (i == before.len() && id == last));
            assert(layout_laws::emits(before, j, id) || (j == before.len() && id == last));
        }
    }
}

proof fn lemma_secondaries_differ<'data>(
    sections: &OutputSections<'data>,
    primary: int,
    count: int,
)
    requires
        sections.wf(),
        0 <= primary <= u32::MAX,
        0 <= count <= sections.count(),
    ensures
        section_classes::secondaries(sections, primary, count).no_duplicates(),
        forall|k: int|
            0 <= k < section_classes::secondaries(sections, primary, count).len() ==> {
                let id = #[trigger] section_classes::secondaries(sections, primary, count)[k];
                id.0 < count && sections.info(id).kind == SectionKind::Secondary(
                    OutputSectionId(primary as u32),
                )
            },
    decreases count,
{
    if count > 0 {
        assert(sections.platform.base_part(sections.count()) <= u32::MAX);
        lemma_secondaries_differ(sections, primary, count - 1);
        let before = section_classes::secondaries(sections, primary, count - 1);
        let all = section_classes::secondaries(sections, primary, count);
        assert forall|k: int| 0 <= k < all.len() implies (#[trigger] all[k]).0 < count
            && sections.info(all[k]).kind == SectionKind::Secondary(
            OutputSectionId(primary as u32),
        ) by {
            if k < before.len() {
                assert(all[k] == before[k]);
            }
        }
        assert forall|i: int, j: int| 0 <= i < all.len() && 0 <= j < all.len() && i != j implies
            all[i] != all[j] by {
            if i < before.len() {
                assert(all[i] == before[i]);
            }
            if j < before.len() {
                assert(all[j] == before[j]);
            }
        }
    }
}

proof fn lemma_order_emissions<'data>(
    names: Seq<Seq<u8>>,
    sections: &OutputSections<'data>,
    secondary: Seq<Vec<OutputSectionId>>,
    ids: Seq<OutputSectionId>,
    count: int,
)
    requires
        sections.wf(),
        macho_order::lists_secondaries(sections, secondary),
        macho_order::ids_exist(sections, ids),
        ids.no_duplicates(),
        forall|k: int| 0 <= k < ids.len() ==> sections.info(#[trigger] ids[k]).kind is Primary,
        0 <= count <= ids.len(),
    ensures
        emits_those(
            macho_order::order_after(names, sections, secondary, ids, count).events,
            sections,
            ids,
            count,
        ),
    decreases count,
{
    if count > 0 {
        lemma_order_emissions(names, sections, secondary, ids, count - 1);
        let s = macho_order::order_after(names, sections, secondary, ids, count - 1);
        let id = ids[count - 1];
        let target = macho_order::all_wanted(names, sections, id);
        let number = names.len() as int;
        let closed = macho_order::ended(s, target, number);
        let open = macho_order::switched(s, names, target);
        lemma_ended_emissions(s, target, number);
        lemma_started_emissions(closed, names, target, number);
        assert forall|i: int, other: OutputSectionId| #[trigger]
            layout_laws::emits(open.events, i, other) implies layout_laws::emits(s.events, i, other)
            && owner(sections, other) != id by {
            assert(layout_laws::emits(closed.events, i, other));
            assert(among(ids, count - 1, owner(sections, other)));
            let k = choose|k: int|
                0 <= k < count - 1 && #[trigger] ids[k] == owner(sections, other);
            assert(ids[k] != ids[count - 1]);
        }
        assert(layout_laws::emits_once(open.events));
        let brought = macho_order::with_secondary(id, secondary);
        assert(sections.has(id));
        let merged = section_classes::secondaries(sections, id.0 as int, sections.count());
        assert(secondary[id.0 as int]@ == merged);
        lemma_secondaries_differ(sections, id.0 as int, sections.count());
        assert(sections.info(id).kind is Primary);
        assert forall|k: int| 0 <= k < brought.len() implies owner(
            sections,
            #[trigger] brought[k],
        ) == id by {
            if k > 0 {
                assert(brought[k] == merged[k - 1]);
            }
        }
        assert forall|i: int, j: int| 0 <= i < brought.len() && 0 <= j < brought.len() && i != j
            implies brought[i] != brought[j] by {
            if i > 0 {
                assert(brought[i] == merged[i - 1]);
            }
            if j > 0 {
                assert(brought[j] == merged[j - 1]);
            }
        }
        lemma_emitted_emissions(open, sections, brought, brought.len() as int, id);
        let after = macho_order::order_after(names, sections, secondary, ids, count).events;
        assert forall|i: int, other: OutputSectionId| #[trigger]
            layout_laws::emits(after, i, other) implies among(
            ids,
            count,
            owner(sections, other),
        ) by {
            if layout_laws::emits(open.events, i, other) {
                assert(among(ids, count - 1, owner(sections, other)));
                let k = choose|k: int|
                    0 <= k < count - 1 && #[trigger] ids[k] == owner(sections, other);
                assert(ids[k] == owner(sections, other));
            } else {
                assert(among(brought, brought.len() as int, other));
                assert(ids[count - 1] == owner(sections, other));
            }
        }
    }
}

/// Unless linker scripts describe the segments, no section of a Mach-O file is emitted twice.
pub proof fn lemma_sections_emitted_once<'data>(
    sections: &OutputSections<'data>,
    custom: &CustomSectionIds,
    secondary: Seq<Vec<OutputSectionId>>,
)
    requires
        sections.wf(),
        sections.platform == macho_segments::spec_platform_sections(),
        has_built_ins(sections),
        macho_order::lists_orphans(sections, custom, false),
        macho_order::lists_secondaries(sections, secondary),
        macho_order::ids_exist(sections, macho_order::section_list(sections, custom)),
    ensures
        layout_laws::emits_once(
            macho_order::ordered(
                macho_order::segment_names(sections),
                sections,
                secondary,
                macho_order::section_list(sections, custom),
            ).events,
        ),
{
    let names = macho_order::segment_names(sections);
    let ids = macho_order::section_list(sections, custom);
    lemma_list_ranked(sections, custom);
    lemma_order_emissions(names, sections, secondary, ids, ids.len() as int);
    let s = macho_order::order_after(names, sections, secondary, ids, ids.len() as int);
    lemma_ended_emissions(s, macho_order::none_wanted(names), names.len() as int);
}

} // verus!
