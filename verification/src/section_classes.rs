//! Sections that no rule places, sorted by the kind of place they go to.
use crate::output_section_id::OutputSectionId;
use crate::output_section_map::OutputSectionMap;
use crate::output_sections::{OutputSections, SectionAttributes, SectionKind};
use vstd::prelude::*;

verus! {

/// The kind of place that a section goes to.
#[derive(Clone, Copy, Debug, PartialEq, Eq, Structural)]
pub enum OrphanClass {
    Exec,
    Ro,
    Data,
    Bss,
    Tdata,
    Tbss,
    NonAlloc,
}

/// The sections that no rule places, by kind.
#[derive(Debug)]
pub struct CustomSectionIds {
    pub ro: Vec<OutputSectionId>,
    pub exec_ids: Vec<OutputSectionId>,
    pub data: Vec<OutputSectionId>,
    pub bss: Vec<OutputSectionId>,
    pub nonalloc: Vec<OutputSectionId>,
    pub tdata: Vec<OutputSectionId>,
    pub tbss: Vec<OutputSectionId>,
    /// Place them after the last section with the same flags, as is done if there is a linker
    /// script.
    pub place_after_similar: bool,
}

/// The kind of place that a section with the given attributes goes to.
pub open spec fn spec_class_of(attributes: SectionAttributes) -> OrphanClass {
    if attributes.executable {
        OrphanClass::Exec
    } else if attributes.tls {
        if attributes.no_bits {
            OrphanClass::Tbss
        } else {
            OrphanClass::Tdata
        }
    } else if !attributes.writable {
        if attributes.alloc {
            OrphanClass::Ro
        } else {
            OrphanClass::NonAlloc
        }
    } else if attributes.no_bits {
        OrphanClass::Bss
    } else {
        OrphanClass::Data
    }
}

impl CustomSectionIds {
    /// The sections of one kind.
    pub open spec fn of(&self, class: OrphanClass) -> Seq<OutputSectionId> {
        match class {
            OrphanClass::Exec => self.exec_ids@,
            OrphanClass::Ro => self.ro@,
            OrphanClass::Data => self.data@,
            OrphanClass::Bss => self.bss@,
            OrphanClass::Tdata => self.tdata@,
            OrphanClass::Tbss => self.tbss@,
            OrphanClass::NonAlloc => self.nonalloc@,
        }
    }

    /// No sections.
    pub fn new(place_after_similar: bool) -> (ids: CustomSectionIds)
        ensures
            forall|class: OrphanClass| (#[trigger] ids.of(class)).len() == 0,
            ids.place_after_similar == place_after_similar,
    {
        CustomSectionIds {
            ro: Vec::new(),
            exec_ids: Vec::new(),
            data: Vec::new(),
            bss: Vec::new(),
            nonalloc: Vec::new(),
            tdata: Vec::new(),
            tbss: Vec::new(),
            place_after_similar,
        }
    }

    /// The kind of place that a section with the given attributes goes to.
    pub fn class_of(attributes: &SectionAttributes) -> (class: OrphanClass)
        ensures
            class == spec_class_of(*attributes),
    {
        if attributes.executable {
            OrphanClass::Exec
        } else if attributes.tls {
            if attributes.no_bits {
                OrphanClass::Tbss
            } else {
                OrphanClass::Tdata
            }
        } else if !attributes.writable {
            if attributes.alloc {
                OrphanClass::Ro
            } else {
                OrphanClass::NonAlloc
            }
        } else if attributes.no_bits {
            OrphanClass::Bss
        } else {
            OrphanClass::Data
        }
    }

    fn push(&mut self, class: OrphanClass, id: OutputSectionId)
        ensures
            final(self).place_after_similar == old(self).place_after_similar,
            forall|other: OrphanClass| #[trigger]
                final(self).of(other) == (if other == class {
                    old(self).of(other).push(id)
                } else {
                    old(self).of(other)
                }),
    {
        match class {
            OrphanClass::Exec => self.exec_ids.push(id),
            OrphanClass::Ro => self.ro.push(id),
            OrphanClass::Data => self.data.push(id),
            OrphanClass::Bss => self.bss.push(id),
            OrphanClass::Tdata => self.tdata.push(id),
            OrphanClass::Tbss => self.tbss.push(id),
            OrphanClass::NonAlloc => self.nonalloc.push(id),
        }
    }

    /// Removes the sections of one kind and returns them.
    pub fn take_class(&mut self, class: OrphanClass) -> (ids: Vec<OutputSectionId>)
        ensures
            ids@ == old(self).of(class),
            final(self).place_after_similar == old(self).place_after_similar,
            forall|other: OrphanClass| #[trigger]
                final(self).of(other) == (if other == class {
                    Seq::empty()
                } else {
                    old(self).of(other)
                }),
    {
        let mut taken: Vec<OutputSectionId> = Vec::new();
        match class {
            OrphanClass::Exec => std::mem::swap(&mut taken, &mut self.exec_ids),
            OrphanClass::Ro => std::mem::swap(&mut taken, &mut self.ro),
            OrphanClass::Data => std::mem::swap(&mut taken, &mut self.data),
            OrphanClass::Bss => std::mem::swap(&mut taken, &mut self.bss),
            OrphanClass::Tdata => std::mem::swap(&mut taken, &mut self.tdata),
            OrphanClass::Tbss => std::mem::swap(&mut taken, &mut self.tbss),
            OrphanClass::NonAlloc => std::mem::swap(&mut taken, &mut self.nonalloc),
        }
        assert(forall|other: OrphanClass| other == class ==> #[trigger] self.of(other)
            =~= Seq::empty());
        taken
    }
}

/// Whether a section is one that no rule places. If linker scripts describe the segments, those are
/// all sections which name no segment, other than the excluded ones and those of the platform's
/// sections that the scripts describe. Otherwise they are the sections that are not the platform's
/// own.
pub open spec fn is_orphan<'data>(
    sections: &OutputSections<'data>,
    id: int,
    has_custom_phdrs: bool,
    excluded: Seq<OutputSectionId>,
) -> bool {
    match sections.infos()[id].kind {
        SectionKind::Secondary(_) => false,
        SectionKind::Primary(identity) => if has_custom_phdrs {
            &&& sections.infos()[id].phdrs@.len() == 0
            &&& id != 1
            &&& !excluded.contains(OutputSectionId(id as u32))
            &&& !(id < sections.platform.built_in_count() && sections.recorded(identity.key()) is Some)
        } else {
            id >= sections.platform.built_in_count()
        },
    }
}

/// Those of the first `count` sections that no rule places and that are of the given kind.
pub open spec fn orphans<'data>(
    sections: &OutputSections<'data>,
    has_custom_phdrs: bool,
    excluded: Seq<OutputSectionId>,
    class: OrphanClass,
    count: int,
) -> Seq<OutputSectionId>
    decreases count,
{
    if count <= 0 {
        Seq::empty()
    } else {
        let before = orphans(sections, has_custom_phdrs, excluded, class, count - 1);
        if is_orphan(sections, count - 1, has_custom_phdrs, excluded) && spec_class_of(
            sections.infos()[count - 1].section_attributes,
        ) == class {
            before.push(OutputSectionId((count - 1) as u32))
        } else {
            before
        }
    }
}

/// Those of the first `count` sections that are merged into the given one.
pub open spec fn secondaries<'data>(
    sections: &OutputSections<'data>,
    primary: int,
    count: int,
) -> Seq<OutputSectionId>
    decreases count,
{
    if count <= 0 {
        Seq::empty()
    } else {
        let before = secondaries(sections, primary, count - 1);
        if sections.infos()[count - 1].kind == (SectionKind::Secondary(
            OutputSectionId(primary as u32),
        )) {
            before.push(OutputSectionId((count - 1) as u32))
        } else {
            before
        }
    }
}

fn contains_id(ids: &Vec<OutputSectionId>, id: OutputSectionId) -> (found: bool)
    ensures
        found == ids@.contains(id),
{
    let mut i: usize = 0;
    while i < ids.len()
        invariant
            i <= ids@.len(),
            forall|k: int| 0 <= k < i ==> ids@[k] != id,
        decreases ids@.len() - i,
    {
        if ids[i].0 == id.0 {
            assert(ids@[i as int] == id);
            return true;
        }
        i = i + 1;
    }
    false
}

fn check_orphan<'data>(
    sections: &OutputSections<'data>,
    id: OutputSectionId,
    has_custom_phdrs: bool,
    excluded: &Vec<OutputSectionId>,
) -> (orphan: bool)
    requires
        sections.wf(),
        sections.has(id),
    ensures
        orphan == is_orphan(sections, id.0 as int, has_custom_phdrs, excluded@),
{
    let info = sections.output_info(id);
    match info.kind {
        SectionKind::Secondary(_) => false,
        SectionKind::Primary(identity) => {
            if has_custom_phdrs {
                if info.phdrs.len() > 0 {
                    return false;
                }
                if id.0 == 1 || contains_id(excluded, id) {
                    return false;
                }
                !(!id.is_custom(&sections.platform) && sections.custom_identity_to_id(
                    &identity,
                ).is_some())
            } else {
                id.is_custom(&sections.platform)
            }
        },
    }
}

/// The secondary sections of each section, in the order of their IDs.
pub fn secondary_sections<'data>(sections: &OutputSections<'data>) -> (map: OutputSectionMap<
    Vec<OutputSectionId>,
>)
    requires
        sections.wf(),
    ensures
        map@.len() == sections.count(),
        forall|primary: int|
            0 <= primary < map@.len() ==> (#[trigger] map@[primary])@ == secondaries(
                sections,
                primary,
                sections.count(),
            ),
{
    let count: usize = sections.num_sections();
    let mut lists: Vec<Vec<OutputSectionId>> = Vec::new();
    let mut i: usize = 0;
    while i < count
        invariant
            i <= count,
            lists@.len() == i,
            forall|k: int| 0 <= k < i ==> (#[trigger] lists@[k])@.len() == 0,
        decreases count - i,
    {
        lists.push(Vec::new());
        i = i + 1;
    }
    let mut map: OutputSectionMap<Vec<OutputSectionId>> = OutputSectionMap::from_values(lists);
    i = 0;
    while i < count
        invariant
            i <= count,
            count == sections.count(),
            sections.wf(),
            map@.len() == count,
            forall|primary: int|
                0 <= primary < map@.len() ==> (#[trigger] map@[primary])@ == secondaries(
                    sections,
                    primary,
                    i as int,
                ),
        decreases count - i,
    {
        assert(sections.platform.base_part(sections.count()) <= u32::MAX);
        let id: OutputSectionId = OutputSectionId(i as u32);
        if let SectionKind::Secondary(primary) = sections.output_info(id).kind {
            assert(sections.infos()[i as int].kind == SectionKind::Secondary(primary));
            map.get_mut(primary).push(id);
        }
        i = i + 1;
    }
    map
}

/// Sorts the sections that no rule places.
pub fn classify_sections<'data>(
    sections: &OutputSections<'data>,
    has_custom_phdrs: bool,
    has_scripts: bool,
    excluded: &Vec<OutputSectionId>,
) -> (custom: CustomSectionIds)
    requires
        sections.wf(),
    ensures
        custom.place_after_similar == has_scripts,
        forall|class: OrphanClass| #[trigger]
            custom.of(class) == orphans(
                sections,
                has_custom_phdrs,
                excluded@,
                class,
                sections.count(),
            ),
{
    let mut custom: CustomSectionIds = CustomSectionIds::new(has_scripts);
    let count: usize = sections.num_sections();
    let mut i: usize = 0;
    assert forall|class: OrphanClass| #[trigger] custom.of(class) == orphans(
        sections,
        has_custom_phdrs,
        excluded@,
        class,
        0,
    ) by {
        assert(custom.of(class) =~= Seq::empty());
    }
    while i < count
        invariant
            i <= count,
            count == sections.count(),
            sections.wf(),
            custom.place_after_similar == has_scripts,
            forall|class: OrphanClass| #[trigger]
                custom.of(class) == orphans(
                    sections,
                    has_custom_phdrs,
                    excluded@,
                    class,
                    i as int,
                ),
        decreases count - i,
    {
        assert(sections.platform.base_part(sections.count()) <= u32::MAX);
        let id: OutputSectionId = OutputSectionId(i as u32);
        if check_orphan(sections, id, has_custom_phdrs, excluded) {
            let attributes: SectionAttributes = sections.section_flags(id);
            custom.push(CustomSectionIds::class_of(&attributes), id);
        }
        i = i + 1;
    }
    custom
}

/// Those of the first `count` sections of a script that are emitted where the script lists them.
pub open spec fn emitted_slots<'data>(
    sections: &OutputSections<'data>,
    listed: Seq<OutputSectionId>,
    count: int,
) -> Seq<OutputSectionId>
    decreases count,
{
    if count <= 0 {
        Seq::empty()
    } else {
        let before = emitted_slots(sections, listed, count - 1);
        let id = listed[count - 1];
        if sections.has_slots(id) ==> (sections.slots(id).choice() matches Some(placement)
            ==> placement.order_index == count - 1) {
            before.push(id)
        } else {
            before
        }
    }
}

/// The sections in the order in which the first `count` scripts list them. Sections with two
/// placements are listed at the chosen one.
pub open spec fn script_order<'data>(
    sections: &OutputSections<'data>,
    scripts: Seq<Vec<OutputSectionId>>,
    count: int,
) -> Seq<OutputSectionId>
    decreases count,
{
    if count <= 0 {
        Seq::empty()
    } else {
        script_order(sections, scripts, count - 1) + emitted_slots(
            sections,
            scripts[count - 1]@,
            scripts[count - 1]@.len() as int,
        )
    }
}

/// Whether scripts list sections that exist.
pub open spec fn scripts_exist<'data>(
    sections: &OutputSections<'data>,
    scripts: Seq<Vec<OutputSectionId>>,
) -> bool {
    forall|s: int, i: int|
        #![trigger scripts[s]@[i]]
        0 <= s < scripts.len() && 0 <= i < scripts[s]@.len() ==> sections.has(scripts[s]@[i])
}

proof fn lemma_slots_exist<'data>(
    sections: &OutputSections<'data>,
    listed: Seq<OutputSectionId>,
    count: int,
)
    requires
        0 <= count <= listed.len(),
        forall|i: int| 0 <= i < listed.len() ==> sections.has(#[trigger] listed[i]),
    ensures
        forall|i: int|
            0 <= i < emitted_slots(sections, listed, count).len() ==> sections.has(
                #[trigger] emitted_slots(sections, listed, count)[i],
            ),
    decreases count,
{
    if count > 0 {
        lemma_slots_exist(sections, listed, count - 1);
        assert(sections.has(listed[count - 1]));
        let before = emitted_slots(sections, listed, count - 1);
        let all = emitted_slots(sections, listed, count);
        assert forall|i: int| 0 <= i < all.len() implies sections.has(#[trigger] all[i]) by {
            if i < before.len() {
                assert(all[i] == before[i]);
            }
        }
    }
}

/// Sections that scripts list exist in the order of the scripts too.
pub proof fn lemma_script_order_exists<'data>(
    sections: &OutputSections<'data>,
    scripts: Seq<Vec<OutputSectionId>>,
    count: int,
)
    requires
        0 <= count <= scripts.len(),
        scripts_exist(sections, scripts),
    ensures
        forall|i: int|
            0 <= i < script_order(sections, scripts, count).len() ==> sections.has(
                #[trigger] script_order(sections, scripts, count)[i],
            ),
    decreases count,
{
    if count > 0 {
        lemma_script_order_exists(sections, scripts, count - 1);
        lemma_slots_exist(sections, scripts[count - 1]@, scripts[count - 1]@.len() as int);
        let before = script_order(sections, scripts, count - 1);
        let all = script_order(sections, scripts, count);
        assert forall|i: int| 0 <= i < all.len() implies sections.has(#[trigger] all[i]) by {
            if i < before.len() {
                assert(all[i] == before[i]);
            } else {
                assert(all[i] == emitted_slots(
                    sections,
                    scripts[count - 1]@,
                    scripts[count - 1]@.len() as int,
                )[i - before.len()]);
            }
        }
    }
}

/// The sections in the order in which the scripts list them.
pub fn script_section_order<'data>(
    sections: &OutputSections<'data>,
    scripts: &Vec<Vec<OutputSectionId>>,
) -> (order: Vec<OutputSectionId>)
    requires
        sections.wf(),
    ensures
        order@ == script_order(sections, scripts@, scripts@.len() as int),
{
    let mut order: Vec<OutputSectionId> = Vec::new();
    let mut s: usize = 0;
    while s < scripts.len()
        invariant
            s <= scripts@.len(),
            sections.wf(),
            order@ == script_order(sections, scripts@, s as int),
        decreases scripts@.len() - s,
    {
        let listed: &Vec<OutputSectionId> = &scripts[s];
        let ghost before = order@;
        let mut i: usize = 0;
        assert(before =~= before + emitted_slots(sections, listed@, 0));
        while i < listed.len()
            invariant
                i <= listed@.len(),
                sections.wf(),
                order@ == before + emitted_slots(sections, listed@, i as int),
            decreases listed@.len() - i,
        {
            if sections.should_emit_only_if_order_slot(listed[i], i) {
                order.push(listed[i]);
                assert(order@ =~= before + emitted_slots(sections, listed@, i + 1));
            }
            i = i + 1;
        }
        s = s + 1;
    }
    order
}

/// Every section that no rule places is in exactly the list of its kind.
pub proof fn lemma_orphans<'data>(
    sections: &OutputSections<'data>,
    has_custom_phdrs: bool,
    excluded: Seq<OutputSectionId>,
    class: OrphanClass,
    count: int,
    id: OutputSectionId,
)
    requires
        sections.wf(),
        0 <= count <= sections.count(),
    ensures
        orphans(sections, has_custom_phdrs, excluded, class, count).contains(id) <==> (id.0 < count
            && is_orphan(sections, id.0 as int, has_custom_phdrs, excluded) && spec_class_of(
            sections.info(id).section_attributes,
        ) == class),
    decreases count,
{
    let all = orphans(sections, has_custom_phdrs, excluded, class, count);
    if count > 0 {
        assert(sections.platform.base_part(sections.count()) <= u32::MAX);
        lemma_orphans(sections, has_custom_phdrs, excluded, class, count - 1, id);
        let before = orphans(sections, has_custom_phdrs, excluded, class, count - 1);
        if all != before {
            assert(all[before.len() as int] == OutputSectionId((count - 1) as u32));
            assert(forall|k: int| 0 <= k < before.len() ==> before[k] == #[trigger] all[k]);
            if all.contains(id) && id.0 != count - 1 {
                let k = choose|k: int| 0 <= k < all.len() && all[k] == id;
                assert(before[k] == id);
            }
            if before.contains(id) {
                let k = choose|k: int| 0 <= k < before.len() && before[k] == id;
                assert(all[k] == id);
            }
        }
    }
}

} // verus!
