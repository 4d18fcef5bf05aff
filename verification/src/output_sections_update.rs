//! Adding output sections and changing what is known of them.
use crate::alignment::Alignment;
use crate::expression::Expression;
use crate::hash_maps::{IdMap, NameMap};
use crate::output_kind::OutputKind;
use crate::output_section_id::{OutputSectionId, PartId, PlatformSections};
use crate::output_section_map::OutputSectionMap;
use crate::output_sections::{
    CustomSectionDetails, GnuBuildIdPlacement, OnlyIfSlots, OutputSections, SecondaryOrder,
    SectionIdentity, SectionKind, SectionLocationInfo, SectionOutputInfo,
};
use vstd::prelude::*;

verus! {

/// The location of a section for which nothing but an address is known.
pub open spec fn location_at<'data>(address: u64) -> SectionLocationInfo<'data> {
    SectionLocationInfo {
        location_counters: (0, 0),
        location: Some(Expression::Number(address)),
        at_location: None,
        at_region: None,
        is_top_level: true,
        overlay: None,
    }
}

fn new_location_at<'data>(address: u64) -> (info: SectionLocationInfo<'data>)
    ensures
        info == location_at(address),
{
    SectionLocationInfo {
        location_counters: (0, 0),
        location: Some(Expression::Number(address)),
        at_location: None,
        at_region: None,
        is_top_level: true,
        overlay: None,
    }
}

/// Where the secondary section for a priority is recorded.
pub open spec fn init_fini_key(primary: OutputSectionId, priority: u16) -> u64 {
    (primary.0 * 0x10000 + priority) as u64
}

/// Different sections and priorities are recorded in different places.
pub proof fn lemma_init_fini_key(a: OutputSectionId, p: u16, b: OutputSectionId, q: u16)
    ensures
        init_fini_key(a, p) == init_fini_key(b, q) <==> a == b && p == q,
{
}

/// What a linker script or an input file says of a section that it names.
#[derive(Clone, Copy, Debug)]
pub struct NamedSection<'data> {
    pub min_alignment: Alignment,
    pub region_name: Option<&'data [u8]>,
    pub location_info: Option<SectionLocationInfo<'data>>,
    pub fill: Option<[u8; 4]>,
    pub phdrs: &'data [&'data [u8]],
}

impl<'data> NamedSection<'data> {
    /// What is known of a section that is new.
    pub open spec fn fresh(
        self,
        identity: SectionIdentity<'data>,
        platform: PlatformSections,
    ) -> SectionOutputInfo<'data> {
        SectionOutputInfo {
            kind: SectionKind::Primary(identity),
            section_attributes: platform.default_attributes,
            min_alignment: self.min_alignment,
            location_info: self.location_info,
            secondary_order: None,
            region_name: self.region_name,
            fill: self.fill,
            phdrs: self.phdrs,
            input_order: false,
        }
    }

    /// What is known of an existing section after it has been named again.
    pub open spec fn added_to(self, info: SectionOutputInfo<'data>) -> SectionOutputInfo<'data> {
        SectionOutputInfo {
            min_alignment: info.min_alignment.spec_max(self.min_alignment),
            region_name: if self.region_name is Some {
                self.region_name
            } else {
                info.region_name
            },
            location_info: if self.location_info is Some {
                self.location_info
            } else {
                info.location_info
            },
            fill: if self.fill is Some {
                self.fill
            } else {
                info.fill
            },
            phdrs: if self.phdrs@.len() > 0 {
                self.phdrs
            } else {
                info.phdrs
            },
            ..info
        }
    }
}

/// Whether none of the sections after the given one, up to and without `end`, has its index.
pub open spec fn last_with_index(
    custom_sections: Seq<CustomSectionDetails>,
    end: int,
    position: int,
) -> bool {
    forall|i: int|
        position < i < end ==> (#[trigger] custom_sections[i]).index
            != custom_sections[position].index
}

impl<'data> CustomSectionDetails<'data> {
    /// What a section of an input file says of the output section that it asks for.
    pub open spec fn named(self) -> NamedSection<'data> {
        NamedSection {
            min_alignment: self.alignment,
            region_name: None,
            location_info: match self.start_address {
                Some(address) => Some(location_at(address)),
                None => None,
            },
            fill: None,
            phdrs: &[],
        }
    }
}

impl<'data> OutputSections<'data> {
    /// The first section, of those from `from` up to and without `to`, whose identity has a key.
    pub open spec fn first_with_key(
        &self,
        key: Seq<u8>,
        from: int,
        to: int,
    ) -> Option<OutputSectionId>
        decreases to - from,
    {
        if from >= to {
            None
        } else if self.has_key(from, key) {
            Some(OutputSectionId(from as u32))
        } else {
            self.first_with_key(key, from + 1, to)
        }
    }

    /// The platform's own section that a named section is the same as. A partial link keeps all
    /// named sections apart from those.
    pub open spec fn built_in_for(&self, key: Seq<u8>) -> Option<OutputSectionId> {
        if self.output_kind is PartialLink {
            None
        } else {
            match self.first_with_key(key, 0, self.platform.regular_base()) {
                Some(id) => Some(id),
                None => match self.platform.comment_section_id {
                    Some(comment) if self.has_key(comment.0 as int, key) => Some(comment),
                    _ => None,
                },
            }
        }
    }

    /// The section that has been recorded under an identity.
    pub open spec fn recorded(&self, key: Seq<u8>) -> Option<OutputSectionId> {
        if self.custom_by_identity@.contains_key(key) {
            Some(OutputSectionId(self.custom_by_identity@[key] as u32))
        } else {
            None
        }
    }

    /// The section that an identity names already.
    pub open spec fn existing(&self, key: Seq<u8>) -> Option<OutputSectionId> {
        match self.recorded(key) {
            Some(id) => Some(id),
            None => self.built_in_for(key),
        }
    }

    /// Everything but what is known of single sections.
    pub open spec fn same_besides_infos(&self, other: &OutputSections<'data>) -> bool {
        &&& self.platform == other.platform
        &&& self.base_address == other.base_address
        &&& self.output_section_indexes@ == other.output_section_indexes@
        &&& self.init_fini_by_priority@ == other.init_fini_by_priority@
        &&& self.rosegment == other.rosegment
        &&& self.output_kind == other.output_kind
        &&& self.gnu_build_id_placement == other.gnu_build_id_placement
        &&& self.gnu_build_id_allocated == other.gnu_build_id_allocated
        &&& self.only_if_positions@ == other.only_if_positions@
        &&& self.only_if_slots@ == other.only_if_slots@
    }

    /// The sections that a platform has from the start.
    pub fn with_base_address(
        platform: PlatformSections,
        section_infos: Vec<SectionOutputInfo<'data>>,
        base_address: u64,
        output_kind: OutputKind,
    ) -> (sections: OutputSections<'data>)
        requires
            platform.wf(),
            section_infos@.len() == platform.built_in_count(),
            forall|i: int|
                0 <= i < section_infos@.len() ==> (#[trigger] section_infos@[i]).kind is Primary,
        ensures
            sections.wf(),
            sections.platform == platform,
            sections.infos() == section_infos@,
            sections.base_address == Expression::Number(base_address),
            sections.output_section_indexes@ == Seq::<Option<u32>>::empty(),
            sections.custom_by_identity@ == Map::<Seq<u8>, u64>::empty(),
            sections.init_fini_by_priority@ == Map::<u64, u64>::empty(),
            sections.rosegment,
            sections.output_kind == output_kind,
            sections.gnu_build_id_placement is Builtin,
            sections.gnu_build_id_allocated == 0,
            sections.only_if_positions@ == Map::<u64, u64>::empty(),
            sections.only_if_slots@ == Seq::<OnlyIfSlots>::empty(),
    {
        OutputSections {
            platform,
            base_address: Expression::Number(base_address),
            section_infos: OutputSectionMap::from_values(section_infos),
            output_section_indexes: Vec::new(),
            custom_by_identity: NameMap::new(),
            init_fini_by_priority: IdMap::new(),
            rosegment: true,
            output_kind,
            gnu_build_id_placement: GnuBuildIdPlacement::Builtin,
            gnu_build_id_allocated: 0,
            only_if_positions: IdMap::new(),
            only_if_slots: Vec::new(),
        }
    }

    fn is_identity_of(&self, id: OutputSectionId, identity: &SectionIdentity<'data>) -> (is: bool)
        requires
            self.has(id),
        ensures
            is == self.has_key(id.0 as int, identity.key()),
    {
        match self.section_infos.get(id).kind {
            SectionKind::Primary(own) => {
                proof {
                    own.lemma_key(*identity);
                }
                own.is_same(identity)
            },
            SectionKind::Secondary(_) => false,
        }
    }

    fn find_with_identity(
        &self,
        identity: &SectionIdentity<'data>,
        to: u32,
    ) -> (found: Option<OutputSectionId>)
        requires
            to <= self.count(),
        ensures
            found == self.first_with_key(identity.key(), 0, to as int),
            found matches Some(id) ==> id.0 < to,
    {
        let mut next: u32 = 0;
        while next < to
            invariant
                next <= to <= self.count(),
                self.first_with_key(identity.key(), 0, to as int) == self.first_with_key(
                    identity.key(),
                    next as int,
                    to as int,
                ),
            decreases to - next,
        {
            if self.is_identity_of(OutputSectionId(next), identity) {
                return Some(OutputSectionId(next));
            }
            next = next + 1;
        }
        None
    }

    fn find_built_in(&self, identity: &SectionIdentity<'data>) -> (found: Option<OutputSectionId>)
        requires
            self.wf(),
            self.platform.comment_section_id matches Some(id) ==> self.has(id),
        ensures
            found == self.built_in_for(identity.key()),
            found matches Some(id) ==> self.has(id),
    {
        if self.output_kind.is_partial_link() {
            return None;
        }
        match self.find_with_identity(identity, self.platform.num_single_part_sections) {
            Some(id) => Some(id),
            None => match self.platform.comment_section_id {
                Some(comment) => {
                    if self.is_identity_of(comment, identity) {
                        Some(comment)
                    } else {
                        None
                    }
                },
                None => None,
            },
        }
    }

    /// The section that a linker script or an input file has given an identity.
    pub fn custom_identity_to_id(
        &self,
        identity: &SectionIdentity<'data>,
    ) -> (id: Option<OutputSectionId>)
        requires
            self.wf(),
        ensures
            id == self.recorded(identity.key()),
            id matches Some(id) ==> self.has(id),
    {
        let key: Vec<u8> = identity.key_bytes();
        match self.custom_by_identity.get(key.as_slice()) {
            Some(id) => Some(OutputSectionId(id as u32)),
            None => None,
        }
    }

    /// The section of the given name, if the platform tells sections apart by name alone. Named
    /// sections come before others.
    pub open spec fn by_name(&self, name: Seq<u8>) -> Option<OutputSectionId> {
        if !self.platform.identity_from_name {
            None
        } else {
            match self.recorded(crate::output_sections::name_key(name)) {
                Some(id) => Some(id),
                None => self.first_with_key(crate::output_sections::name_key(name), 0, self.count()),
            }
        }
    }

    /// The section of the given name, if the platform tells sections apart by name alone.
    pub fn section_id_by_name(&self, name: &'data [u8]) -> (id: Option<OutputSectionId>)
        requires
            self.wf(),
        ensures
            id == self.by_name(name@),
            id matches Some(id) ==> self.has(id),
    {
        if !self.platform.identity_from_name {
            return None;
        }
        let identity: SectionIdentity<'data> = SectionIdentity::from_name(name);
        match self.custom_identity_to_id(&identity) {
            Some(id) => Some(id),
            None => self.find_with_identity(&identity, self.section_infos.len() as u32),
        }
    }

    /// Adds a section, or adds to what is known of the section that the identity already names.
    pub fn add_named_section(
        &mut self,
        identity: SectionIdentity<'data>,
        named: NamedSection<'data>,
    ) -> (id: OutputSectionId)
        requires
            old(self).wf(),
            old(self).has_room(),
            old(self).platform.comment_section_id matches Some(comment) ==> old(self).has(comment),
        ensures
            final(self).wf(),
            final(self).same_besides_infos(old(self)),
            final(self).has(id),
            final(self).custom_by_identity@ == old(self).custom_by_identity@.insert(
                identity.key(),
                id.0 as u64,
            ),
            match old(self).existing(identity.key()) {
                None => id.0 == old(self).count() && final(self).infos() == old(self).infos().push(
                    named.fresh(identity, old(self).platform),
                ),
                Some(existing) => id == existing && old(self).has(id) && final(self).infos() == old(
                    self,
                ).infos().update(id.0 as int, named.added_to(old(self).info(id))),
            },
    {
        let key: Vec<u8> = identity.key_bytes();
        match self.custom_identity_to_id(&identity) {
            Some(id) => {
                assert(self.custom_by_identity@.insert(identity.key(), id.0 as u64)
                    =~= self.custom_by_identity@);
                self.add_to_section(id, named);
                id
            },
            None => match self.find_built_in(&identity) {
                Some(built_in) => {
                    self.add_to_section(built_in, named);
                    self.custom_by_identity.insert(key, built_in.0 as u64);
                    built_in
                },
                None => {
                    let id: OutputSectionId = self.add_fresh_section(identity, named);
                    self.custom_by_identity.insert(key, id.0 as u64);
                    id
                },
            },
        }
    }

    fn add_fresh_section(
        &mut self,
        identity: SectionIdentity<'data>,
        named: NamedSection<'data>,
    ) -> (id: OutputSectionId)
        requires
            old(self).wf(),
            old(self).has_room(),
        ensures
            final(self).wf(),
            final(self).same_besides_infos(old(self)),
            final(self).custom_by_identity@ == old(self).custom_by_identity@,
            id.0 == old(self).count(),
            final(self).infos() == old(self).infos().push(named.fresh(identity, old(self).platform)),
    {
        let id: OutputSectionId = self.section_infos.add_new(
            SectionOutputInfo {
                kind: SectionKind::Primary(identity),
                section_attributes: self.platform.default_attributes,
                min_alignment: named.min_alignment,
                location_info: named.location_info,
                secondary_order: None,
                region_name: named.region_name,
                fill: named.fill,
                phdrs: named.phdrs,
                input_order: false,
            },
        );
        proof {
            assert(self.infos().drop_last() =~= old(self).infos());
            self.lemma_wf_after_push(old(self));
        }
        id
    }

    fn add_to_section(&mut self, id: OutputSectionId, named: NamedSection<'data>)
        requires
            old(self).wf(),
            old(self).has(id),
        ensures
            final(self).wf(),
            final(self).same_besides_infos(old(self)),
            final(self).custom_by_identity@ == old(self).custom_by_identity@,
            final(self).infos() == old(self).infos().update(
                id.0 as int,
                named.added_to(old(self).info(id)),
            ),
    {
        let mut info: SectionOutputInfo<'data> = self.output_info(id);
        let ghost before = info;
        info.min_alignment = info.min_alignment.max(named.min_alignment);
        if named.region_name.is_some() {
            info.region_name = named.region_name;
        }
        if named.location_info.is_some() {
            info.location_info = named.location_info;
        }
        if named.fill.is_some() {
            info.fill = named.fill;
        }
        if named.phdrs.len() > 0 {
            info.phdrs = named.phdrs;
        }
        self.section_infos.set(id, info);
        proof {
            assert(info == named.added_to(before));
            self.lemma_wf_after_update(old(self), id);
        }
    }

    pub(crate) proof fn lemma_wf_after_push(&self, before: &OutputSections<'data>)
        requires
            before.wf(),
            before.has_room(),
            self.same_besides_infos(before),
            self.infos().len() == before.infos().len() + 1,
            self.infos().drop_last() == before.infos(),
            self.infos().last().kind matches SectionKind::Secondary(primary) ==> primary.0
                < before.count() && before.info(primary).kind is Primary,
            forall|key: Seq<u8>| #[trigger]
                self.custom_by_identity@.contains_key(key) ==> self.custom_by_identity@[key]
                    < self.count(),
        ensures
            self.wf(),
    {
        assert forall|id: int| 0 <= id < self.count() implies ((
        #[trigger] self.infos()[id]).kind matches SectionKind::Secondary(primary) ==> primary.0
            < self.count() && self.infos()[primary.0 as int].kind is Primary) by {
            if id < before.count() {
                assert(self.infos()[id] == self.infos().drop_last()[id]);
                if let SectionKind::Secondary(primary) = self.infos()[id].kind {
                    assert(self.infos()[primary.0 as int]
                        == self.infos().drop_last()[primary.0 as int]);
                }
            } else {
                if let SectionKind::Secondary(primary) = self.infos()[id].kind {
                    assert(self.infos()[primary.0 as int]
                        == self.infos().drop_last()[primary.0 as int]);
                }
            }
        }
    }

    pub(crate) proof fn lemma_wf_after_update(&self, before: &OutputSections<'data>, id: OutputSectionId)
        requires
            before.wf(),
            before.has(id),
            self.platform == before.platform,
            self.init_fini_by_priority@ == before.init_fini_by_priority@,
            self.only_if_positions@ == before.only_if_positions@,
            self.only_if_slots@.len() == before.only_if_slots@.len(),
            self.infos() == before.infos().update(id.0 as int, self.info(id)),
            self.info(id).kind == before.info(id).kind,
            forall|key: Seq<u8>| #[trigger]
                self.custom_by_identity@.contains_key(key) ==> self.custom_by_identity@[key]
                    < self.count(),
        ensures
            self.wf(),
    {
        assert forall|other: int| 0 <= other < self.count() implies ((
        #[trigger] self.infos()[other]).kind matches SectionKind::Secondary(primary) ==> primary.0
            < self.count() && self.infos()[primary.0 as int].kind is Primary) by {
            assert(self.infos()[other].kind == before.infos()[other].kind);
            if let SectionKind::Secondary(primary) = self.infos()[other].kind {
                assert(self.infos()[primary.0 as int].kind
                    == before.infos()[primary.0 as int].kind);
            }
        }
    }

    /// Whether `info` is what is known of a secondary section that is new.
    pub open spec fn is_fresh_secondary(
        &self,
        info: SectionOutputInfo<'data>,
        primary_id: OutputSectionId,
        min_alignment: Alignment,
        secondary_order: Option<SecondaryOrder>,
        location_info: Option<SectionLocationInfo<'data>>,
        input_order: bool,
    ) -> bool {
        &&& info.kind == SectionKind::Secondary(primary_id)
        &&& info.section_attributes == self.info(primary_id).section_attributes
        &&& info.min_alignment == min_alignment
        &&& info.location_info == (if location_info is Some {
            location_info
        } else {
            self.info(primary_id).location_info
        })
        &&& info.secondary_order == secondary_order
        &&& info.region_name == self.info(primary_id).region_name
        &&& info.fill == self.info(primary_id).fill
        &&& info.phdrs@.len() == 0
        &&& info.input_order == input_order
    }

    /// Adds a section that is merged into another.
    pub fn add_secondary_section(
        &mut self,
        primary_id: OutputSectionId,
        min_alignment: Alignment,
        secondary_order: Option<SecondaryOrder>,
        location_info: Option<SectionLocationInfo<'data>>,
        input_order: bool,
    ) -> (id: OutputSectionId)
        requires
            old(self).wf(),
            old(self).has_room(),
            old(self).has(primary_id),
            old(self).info(primary_id).kind is Primary,
        ensures
            final(self).wf(),
            final(self).same_besides_infos(old(self)),
            final(self).custom_by_identity@ == old(self).custom_by_identity@,
            id.0 == old(self).count(),
            final(self).infos().len() == old(self).count() + 1,
            final(self).infos().drop_last() == old(self).infos(),
            old(self).is_fresh_secondary(
                final(self).info(id),
                primary_id,
                min_alignment,
                secondary_order,
                location_info,
                input_order,
            ),
    {
        let primary: SectionOutputInfo<'data> = self.output_info(primary_id);
        let location_info: Option<SectionLocationInfo<'data>> = match location_info {
            Some(info) => Some(info),
            None => primary.location_info,
        };
        let id: OutputSectionId = self.section_infos.add_new(
            SectionOutputInfo {
                kind: SectionKind::Secondary(primary_id),
                section_attributes: primary.section_attributes,
                min_alignment,
                location_info,
                secondary_order,
                region_name: primary.region_name,
                fill: primary.fill,
                phdrs: &[],
                input_order,
            },
        );
        assert(self.infos().drop_last() =~= old(self).infos());
        proof {
            self.lemma_wf_after_push(old(self));
        }
        id
    }

    /// Raises the least alignment of a section.
    pub fn bump_min_alignment(&mut self, id: OutputSectionId, alignment: Alignment)
        requires
            old(self).wf(),
            old(self).has(id),
        ensures
            final(self).wf(),
            final(self).same_besides_infos(old(self)),
            final(self).custom_by_identity@ == old(self).custom_by_identity@,
            final(self).infos() == old(self).infos().update(
                id.0 as int,
                SectionOutputInfo {
                    min_alignment: old(self).info(id).min_alignment.spec_max(alignment),
                    ..old(self).info(id)
                },
            ),
    {
        let mut info: SectionOutputInfo<'data> = self.output_info(id);
        info.min_alignment = info.min_alignment.max(alignment);
        self.section_infos.set(id, info);
        proof {
            self.lemma_wf_after_update(old(self), id);
        }
    }

    /// Says whether inputs of a section are placed in the order of the command line.
    pub fn set_input_order(&mut self, id: OutputSectionId, input_order: bool)
        requires
            old(self).wf(),
            old(self).has(id),
        ensures
            final(self).wf(),
            final(self).same_besides_infos(old(self)),
            final(self).custom_by_identity@ == old(self).custom_by_identity@,
            final(self).infos() == old(self).infos().update(
                id.0 as int,
                SectionOutputInfo { input_order, ..old(self).info(id) },
            ),
    {
        let mut info: SectionOutputInfo<'data> = self.output_info(id);
        info.input_order = input_order;
        self.section_infos.set(id, info);
        proof {
            self.lemma_wf_after_update(old(self), id);
        }
    }

    pub fn uses_input_order(&self, id: OutputSectionId) -> (input_order: bool)
        requires
            self.has(id),
        ensures
            input_order == self.info(id).input_order,
    {
        self.section_infos.get(id).input_order
    }

    pub fn set_rosegment(&mut self, rosegment: bool)
        requires
            old(self).wf(),
        ensures
            final(self).wf(),
            *final(self) == (OutputSections { rosegment, ..*old(self) }),
    {
        self.rosegment = rosegment;
    }

    pub fn set_base_address(&mut self, base_address: Expression<'data>)
        requires
            old(self).wf(),
        ensures
            final(self).wf(),
            *final(self) == (OutputSections { base_address, ..*old(self) }),
    {
        self.base_address = base_address;
    }

    /// The secondary section for inputs of one priority. It is added if there is none yet.
    pub fn get_or_create_init_fini_secondary(
        &mut self,
        primary: OutputSectionId,
        priority: u16,
        min_alignment: Alignment,
    ) -> (id: OutputSectionId)
        requires
            old(self).wf(),
            old(self).has_room(),
            old(self).has(primary),
            old(self).info(primary).kind is Primary,
        ensures
            final(self).wf(),
            final(self).has(id),
            final(self).platform == old(self).platform,
            final(self).base_address == old(self).base_address,
            final(self).output_section_indexes@ == old(self).output_section_indexes@,
            final(self).custom_by_identity@ == old(self).custom_by_identity@,
            final(self).rosegment == old(self).rosegment,
            final(self).output_kind == old(self).output_kind,
            final(self).gnu_build_id_placement == old(self).gnu_build_id_placement,
            final(self).gnu_build_id_allocated == old(self).gnu_build_id_allocated,
            final(self).only_if_positions@ == old(self).only_if_positions@,
            final(self).only_if_slots@ == old(self).only_if_slots@,
            final(self).init_fini_by_priority@ == old(self).init_fini_by_priority@.insert(
                init_fini_key(primary, priority),
                id.0 as u64,
            ),
            old(self).init_fini_by_priority@.contains_key(init_fini_key(primary, priority)) ==> id.0
                == old(self).init_fini_by_priority@[init_fini_key(primary, priority)]
                && final(self).infos() == old(self).infos().update(
                id.0 as int,
                SectionOutputInfo {
                    min_alignment: old(self).info(id).min_alignment.spec_max(min_alignment),
                    ..old(self).info(id)
                },
            ),
            !old(self).init_fini_by_priority@.contains_key(init_fini_key(primary, priority)) ==> id.0
                == old(self).count() && final(self).infos().len() == old(self).count() + 1
                && final(self).infos().drop_last() == old(self).infos() && old(
                self,
            ).is_fresh_secondary(
                final(self).info(id),
                primary,
                min_alignment,
                Some(SecondaryOrder::InitFini { priority }),
                None,
                false,
            ),
    {
        let key: u64 = primary.0 as u64 * 0x10000 + priority as u64;
        match self.init_fini_by_priority.get(key) {
            Some(id) => {
                let id: OutputSectionId = OutputSectionId(id as u32);
                self.bump_min_alignment(id, min_alignment);
                assert(self.init_fini_by_priority@.insert(key, id.0 as u64)
                    =~= self.init_fini_by_priority@);
                id
            },
            None => {
                let id: OutputSectionId = self.add_secondary_section(
                    primary,
                    min_alignment,
                    Some(SecondaryOrder::InitFini { priority }),
                    None,
                    false,
                );
                self.init_fini_by_priority.insert(key, id.0 as u64);
                id
            },
        }
    }
}

/// What is known of one of the platform's sections after an address has been asked for.
pub open spec fn moved_to<'data>(info: SectionOutputInfo<'data>, address: u64) -> SectionOutputInfo<
    'data,
> {
    SectionOutputInfo {
        location_info: match info.location_info {
            Some(location) => Some(
                SectionLocationInfo { location: Some(Expression::Number(address)), ..location },
            ),
            None => Some(location_at(address)),
        },
        ..info
    }
}

impl<'data> OutputSections<'data> {
    /// Gives one of the platform's sections the address that the arguments ask for, if they do.
    pub fn override_section_start(&mut self, id: Option<OutputSectionId>, address: Option<u64>)
        requires
            old(self).wf(),
            id matches Some(id) ==> old(self).has(id),
        ensures
            final(self).wf(),
            final(self).same_besides_infos(old(self)),
            final(self).custom_by_identity@ == old(self).custom_by_identity@,
            final(self).infos() == (match (id, address) {
                (Some(id), Some(address)) => old(self).infos().update(
                    id.0 as int,
                    moved_to(old(self).info(id), address),
                ),
                _ => old(self).infos(),
            }),
    {
        match (id, address) {
            (Some(id), Some(address)) => {
                let mut info: SectionOutputInfo<'data> = self.output_info(id);
                info.location_info = match info.location_info {
                    Some(location) => {
                        let mut location: SectionLocationInfo<'data> = location;
                        location.location = Some(Expression::Number(address));
                        Some(location)
                    },
                    None => Some(new_location_at(address)),
                };
                self.section_infos.set(id, info);
                proof {
                    self.lemma_wf_after_update(old(self), id);
                }
            },
            _ => {},
        }
    }

    /// What is known of all sections after `.text`, `.data` and `.bss` have been given the
    /// addresses that the arguments ask for.
    pub open spec fn infos_with_starts(
        &self,
        text: Option<u64>,
        data: Option<u64>,
        bss: Option<u64>,
    ) -> Seq<SectionOutputInfo<'data>> {
        let first = with_start(self.infos(), self.platform.text_section_id, text);
        let second = with_start(first, self.platform.data_section_id, data);
        with_start(second, self.platform.bss_section_id, bss)
    }

    /// Gives `.text`, `.data` and `.bss` the addresses that the arguments ask for.
    pub fn apply_section_start_overrides(
        &mut self,
        text: Option<u64>,
        data: Option<u64>,
        bss: Option<u64>,
    )
        requires
            old(self).wf(),
            old(self).platform.text_section_id matches Some(id) ==> old(self).has(id),
            old(self).platform.data_section_id matches Some(id) ==> old(self).has(id),
            old(self).platform.bss_section_id matches Some(id) ==> old(self).has(id),
        ensures
            final(self).wf(),
            final(self).same_besides_infos(old(self)),
            final(self).custom_by_identity@ == old(self).custom_by_identity@,
            final(self).infos() == old(self).infos_with_starts(text, data, bss),
    {
        self.override_section_start(self.platform.text_section_id, text);
        self.override_section_start(self.platform.data_section_id, data);
        self.override_section_start(self.platform.bss_section_id, bss);
    }

    /// The part that a section of an input file goes into: the one with its alignment if the
    /// output section has one part for each alignment.
    pub open spec fn part_for(&self, id: OutputSectionId, alignment: Alignment) -> PartId {
        if id.0 < self.platform.regular_base() {
            PartId(id.0)
        } else {
            PartId((self.platform.base_part(id.0 as int) + 16 - alignment.exp()) as u32)
        }
    }

    /// The part that a section of an input file goes into.
    pub fn part_id_for(&self, id: OutputSectionId, alignment: Alignment) -> (part_id: PartId)
        requires
            self.wf(),
            self.has(id),
        ensures
            part_id == self.part_for(id, alignment),
    {
        proof {
            self.lemma_numbers_parts(id);
        }
        if id.is_regular(&self.platform) {
            id.part_id_with_alignment(&self.platform, alignment)
        } else {
            id.base_part_id(&self.platform)
        }
    }

    /// What is known of the sections, and what is recorded under each identity, after the first
    /// `count` sections of an input file have been added. The first section with an identity adds
    /// a section, unless there is one already; others add to what is known of it.
    pub open spec fn after_adding(
        &self,
        customs: Seq<CustomSectionDetails<'data>>,
        count: int,
    ) -> (Seq<SectionOutputInfo<'data>>, Map<Seq<u8>, u64>)
        decreases count,
    {
        if count <= 0 {
            (self.infos(), self.custom_by_identity@)
        } else {
            let (infos, identities) = self.after_adding(customs, count - 1);
            let custom = customs[count - 1];
            let key = custom.identity.key();
            let existing = if identities.contains_key(key) {
                Some(OutputSectionId(identities[key] as u32))
            } else {
                self.built_in_for(key)
            };
            match existing {
                None => (
                    infos.push(custom.named().fresh(custom.identity, self.platform)),
                    identities.insert(key, infos.len() as u64),
                ),
                Some(id) => (
                    infos.update(id.0 as int, custom.named().added_to(infos[id.0 as int])),
                    identities.insert(key, id.0 as u64),
                ),
            }
        }
    }

    proof fn lemma_same_built_in(&self, other: &OutputSections<'data>, key: Seq<u8>)
        requires
            self.wf(),
            other.wf(),
            self.same_besides_infos(other),
            self.count() <= other.count(),
            self.platform.comment_section_id matches Some(comment) ==> self.has(comment),
            forall|id: int|
                0 <= id < self.count() ==> (#[trigger] other.infos()[id]).kind
                    == self.infos()[id].kind,
        ensures
            self.built_in_for(key) == other.built_in_for(key),
    {
        self.lemma_same_first(other, key, 0, self.platform.regular_base());
    }

    proof fn lemma_same_first(&self, other: &OutputSections<'data>, key: Seq<u8>, from: int, to: int)
        requires
            0 <= from,
            to <= self.count() <= other.count(),
            forall|id: int|
                0 <= id < self.count() ==> (#[trigger] other.infos()[id]).kind
                    == self.infos()[id].kind,
        ensures
            self.first_with_key(key, from, to) == other.first_with_key(key, from, to),
        decreases to - from,
    {
        if from < to {
            assert(other.infos()[from].kind == self.infos()[from].kind);
            self.lemma_same_first(other, key, from + 1, to);
        }
    }

    /// Whether a section of an input file goes into the given part of the section of its identity.
    pub open spec fn goes_into(&self, custom: CustomSectionDetails, part_id: PartId) -> bool {
        self.recorded(custom.identity.key()) matches Some(id) && self.has(id) && part_id
            == self.part_for(id, custom.alignment)
    }

    /// Adds the output section that a section of an input file asks for, and says which part of
    /// it the input goes into.
    pub fn add_section(&mut self, custom: CustomSectionDetails<'data>) -> (added: (
        OutputSectionId,
        PartId,
    ))
        requires
            old(self).wf(),
            old(self).has_room(),
            old(self).platform.comment_section_id matches Some(comment) ==> old(self).has(comment),
        ensures
            final(self).wf(),
            final(self).same_besides_infos(old(self)),
            final(self).has(added.0),
            added.1 == final(self).part_for(added.0, custom.alignment),
            final(self).custom_by_identity@ == old(self).custom_by_identity@.insert(
                custom.identity.key(),
                added.0.0 as u64,
            ),
            match old(self).existing(custom.identity.key()) {
                None => added.0.0 == old(self).count() && final(self).infos() == old(
                    self,
                ).infos().push(custom.named().fresh(custom.identity, old(self).platform)),
                Some(id) => added.0 == id && old(self).has(id) && final(self).infos() == old(
                    self,
                ).infos().update(id.0 as int, custom.named().added_to(old(self).info(id))),
            },
    {
        let location_info: Option<SectionLocationInfo<'data>> = match custom.start_address {
            Some(address) => Some(new_location_at(address)),
            None => None,
        };
        let named: NamedSection<'data> = NamedSection {
            min_alignment: custom.alignment,
            region_name: None,
            location_info,
            fill: None,
            phdrs: &[],
        };
        assert(named == custom.named());
        let id: OutputSectionId = self.add_named_section(custom.identity, named);
        let part_id: PartId = self.part_id_for(id, custom.alignment);
        (id, part_id)
    }

    /// Adds the output sections that the sections of an input file ask for. The part that each
    /// of them goes into is recorded at its index. Of those that have the same index, the last
    /// counts.
    pub fn add_sections(
        &mut self,
        custom_sections: &Vec<CustomSectionDetails<'data>>,
        section_part_ids: &mut Vec<PartId>,
    )
        requires
            old(self).wf(),
            old(self).platform.base_part(old(self).count() + custom_sections@.len()) <= u32::MAX,
            old(self).platform.comment_section_id matches Some(comment) ==> old(self).has(comment),
            forall|i: int|
                0 <= i < custom_sections@.len() ==> (#[trigger] custom_sections@[i]).index < old(
                    section_part_ids,
                )@.len(),
        ensures
            final(self).wf(),
            final(self).same_besides_infos(old(self)),
            (final(self).infos(), final(self).custom_by_identity@) == old(self).after_adding(
                custom_sections@,
                custom_sections@.len() as int,
            ),
            final(section_part_ids)@.len() == old(section_part_ids)@.len(),
            forall|i: int|
                0 <= i < custom_sections@.len() && last_with_index(
                    custom_sections@,
                    custom_sections@.len() as int,
                    i,
                ) ==> final(self).goes_into(
                    #[trigger] custom_sections@[i],
                    final(section_part_ids)@[custom_sections@[i].index as int],
                ),
            forall|index: int|
                0 <= index < old(section_part_ids)@.len() && (forall|i: int|
                    0 <= i < custom_sections@.len() ==> (#[trigger] custom_sections@[i]).index
                        != index) ==> #[trigger] final(section_part_ids)@[index] == old(
                    section_part_ids,
                )@[index],
    {
        let ghost before = *self;
        let ghost ids_before = section_part_ids@;
        let mut i: usize = 0;
        while i < custom_sections.len()
            invariant
                i <= custom_sections@.len(),
                self.wf(),
                self.same_besides_infos(&before),
                before.count() <= self.count() <= before.count() + i,
                before.platform.base_part(before.count() + custom_sections@.len()) <= u32::MAX,
                before.platform.comment_section_id matches Some(comment) ==> before.has(comment),
                before.wf(),
                before == *old(self),
                forall|id: int|
                    0 <= id < before.count() ==> (#[trigger] self.infos()[id]).kind
                        == before.infos()[id].kind,
                (self.infos(), self.custom_by_identity@) == before.after_adding(
                    custom_sections@,
                    i as int,
                ),
                section_part_ids@.len() == ids_before.len(),
                forall|j: int|
                    0 <= j < custom_sections@.len() ==> (#[trigger] custom_sections@[j]).index
                        < ids_before.len(),
                forall|j: int|
                    0 <= j < i && last_with_index(custom_sections@, i as int, j)
                        ==> self.goes_into(
                        #[trigger] custom_sections@[j],
                        section_part_ids@[custom_sections@[j].index as int],
                    ),
                forall|index: int|
                    0 <= index < ids_before.len() && (forall|j: int|
                        0 <= j < i ==> (#[trigger] custom_sections@[j]).index != index)
                        ==> #[trigger] section_part_ids@[index] == ids_before[index],
            decreases custom_sections@.len() - i,
        {
            let custom: CustomSectionDetails<'data> = custom_sections[i];
            let ghost previous = *self;
            let ghost previous_ids = section_part_ids@;
            proof {
                before.lemma_same_built_in(&previous, custom.identity.key());
            }
            let (id, part_id) = self.add_section(custom);
            section_part_ids.set(custom.index, part_id);
            proof {
                assert(self.recorded(custom.identity.key()) == Some(id));
                assert forall|j: int|
                    0 <= j < i + 1 && last_with_index(custom_sections@, i + 1, j) implies
                    self.goes_into(
                    #[trigger] custom_sections@[j],
                    section_part_ids@[custom_sections@[j].index as int],
                ) by {
                    if j < i {
                        assert(last_with_index(custom_sections@, i as int, j));
                        assert(custom_sections@[j].index != custom_sections@[i as int].index);
                        assert(previous.recorded(custom_sections@[j].identity.key()) is Some);
                        if custom_sections@[j].identity.key() == custom.identity.key() {
                            assert(previous.recorded(custom.identity.key()) is Some);
                        }
                    }
                }
                assert forall|index: int|
                    0 <= index < ids_before.len() && (forall|j: int|
                        0 <= j < i + 1 ==> (#[trigger] custom_sections@[j]).index != index) implies
                    #[trigger] section_part_ids@[index] == ids_before[index] by {
                    assert(custom_sections@[i as int].index != index);
                    assert(previous_ids[index] == ids_before[index]);
                }
            }
            i = i + 1;
        }
    }
}

/// What is known of the sections after one of them has been given an address.
pub open spec fn with_start<'data>(
    infos: Seq<SectionOutputInfo<'data>>,
    id: Option<OutputSectionId>,
    address: Option<u64>,
) -> Seq<SectionOutputInfo<'data>> {
    match (id, address) {
        (Some(id), Some(address)) => infos.update(
            id.0 as int,
            moved_to(infos[id.0 as int], address),
        ),
        _ => infos,
    }
}

} // verus!
