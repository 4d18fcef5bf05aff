//! What is known of each output section.
use crate::alignment::Alignment;
use crate::bytes::{append_bytes, bytes_equal};
use crate::expression::Expression;
use crate::hash_maps::{IdMap, NameMap};
use crate::output_kind::OutputKind;
use crate::output_section_id::{OutputSectionId, PartId, PlatformSections};
use crate::output_section_map::{DefaultValue, OutputSectionMap};
use crate::output_section_part_map::OutputSectionPartMap;
use vstd::prelude::*;

verus! {

/// The properties of a section that decide where it goes.
#[derive(Clone, Copy, Debug, PartialEq, Eq, Structural)]
pub struct SectionAttributes {
    pub alloc: bool,
    pub writable: bool,
    pub executable: bool,
    pub tls: bool,
    pub no_bits: bool,
    /// The section takes up address space in each thread's copy of the thread-local data only.
    pub tls_address_space_only: bool,
    /// The type of the section, as the file format numbers types.
    pub ty: u32,
    /// The flags of the section, as the file format has them.
    pub flags: u64,
}

/// What tells output sections apart: a name, and what a file format adds to it.
#[derive(Clone, Copy, Debug)]
pub struct SectionIdentity<'data> {
    pub name: &'data [u8],
    pub format_specific: Option<[u8; 16]>,
}

/// Whether a section stands for itself or is merged into another.
#[derive(Clone, Copy, Debug)]
pub enum SectionKind<'data> {
    Primary(SectionIdentity<'data>),
    Secondary(OutputSectionId),
}

#[derive(Clone, Copy, Debug, PartialEq, Eq, Structural)]
pub enum SecondaryOrder {
    InitFini { priority: u16 },
}

/// The place of a section in an overlay.
#[derive(Clone, Copy, Debug, PartialEq, Eq, Structural)]
pub struct OverlayPlacement {
    pub group: u32,
    pub member: u32,
    pub is_last: bool,
}

/// What a linker script says about where a section goes.
#[derive(Clone, Copy, Debug)]
pub struct SectionLocationInfo<'data> {
    /// The first location counter and the one after the last.
    pub location_counters: (usize, usize),
    pub location: Option<Expression<'data>>,
    pub at_location: Option<Expression<'data>>,
    pub at_region: Option<&'data [u8]>,
    pub is_top_level: bool,
    pub overlay: Option<OverlayPlacement>,
}

/// What is known of an output section.
#[derive(Clone, Copy, Debug)]
pub struct SectionOutputInfo<'data> {
    pub kind: SectionKind<'data>,
    pub section_attributes: SectionAttributes,
    pub min_alignment: Alignment,
    pub location_info: Option<SectionLocationInfo<'data>>,
    pub secondary_order: Option<SecondaryOrder>,
    pub region_name: Option<&'data [u8]>,
    pub fill: Option<[u8; 4]>,
    pub phdrs: &'data [&'data [u8]],
    /// Place inputs in the order of the command line, each at its own alignment.
    pub input_order: bool,
}

/// Which of two copies of a section a linker script speaks of.
#[derive(Clone, Copy, Debug, PartialEq, Eq, Structural)]
pub enum OnlyIf {
    Ro,
    Rw,
}

/// One of the two placements that `ONLY_IF_RO` and `ONLY_IF_RW` give an output section.
#[derive(Clone, Copy, Debug)]
pub struct OnlyIfPlacement<'data> {
    pub order_index: usize,
    pub location_info: SectionLocationInfo<'data>,
    pub phdrs: &'data [&'data [u8]],
}

/// The `ONLY_IF_RO` and `ONLY_IF_RW` copies of an output section.
#[derive(Clone, Copy, Debug)]
pub struct OnlyIfSlots<'data> {
    pub ro: Option<OnlyIfPlacement<'data>>,
    pub rw: Option<OnlyIfPlacement<'data>>,
    /// Use the `ONLY_IF_RW` copy.
    pub prefer_rw: bool,
}

/// How a linker script maps the generated `.note.gnu.build-id` section.
#[derive(Clone, Copy, Debug, PartialEq, Eq, Structural)]
pub enum GnuBuildIdPlacement {
    /// Keep the section of its own.
    Builtin,
    /// Merge into this output section.
    Merge(OutputSectionId),
    /// A `/DISCARD/` matcher matched it.
    Discard,
}

/// A section of an input file that has no rule of its own.
#[derive(Clone, Copy, Debug)]
pub struct CustomSectionDetails<'data> {
    pub identity: SectionIdentity<'data>,
    pub index: usize,
    pub alignment: Alignment,
    /// The address that the arguments ask for.
    pub start_address: Option<u64>,
}

/// The output sections of a link.
pub struct OutputSections<'data> {
    pub platform: PlatformSections,
    /// The base address of the output.
    pub base_address: Expression<'data>,
    pub section_infos: OutputSectionMap<SectionOutputInfo<'data>>,
    /// The index of each section in the output; `None` if it is not emitted.
    pub output_section_indexes: Vec<Option<u32>>,
    pub custom_by_identity: NameMap,
    /// Secondary sections by primary section and priority.
    pub init_fini_by_priority: IdMap,
    pub rosegment: bool,
    pub output_kind: OutputKind,
    pub gnu_build_id_placement: GnuBuildIdPlacement,
    pub gnu_build_id_allocated: u64,
    /// Positions in `only_if_slots` by section.
    pub only_if_positions: IdMap,
    pub only_if_slots: Vec<OnlyIfSlots<'data>>,
}

impl SectionAttributes {
    /// No attributes at all.
    pub open spec fn none() -> SectionAttributes {
        SectionAttributes {
            alloc: false,
            writable: false,
            executable: false,
            tls: false,
            no_bits: false,
            tls_address_space_only: false,
            ty: 0,
            flags: 0,
        }
    }

    /// No attributes at all.
    pub fn empty() -> (attributes: SectionAttributes)
        ensures
            attributes == SectionAttributes::none(),
    {
        SectionAttributes {
            alloc: false,
            writable: false,
            executable: false,
            tls: false,
            no_bits: false,
            tls_address_space_only: false,
            ty: 0,
            flags: 0,
        }
    }
}

/// The key of the identity that consists of a name alone.
pub open spec fn name_key(name: Seq<u8>) -> Seq<u8> {
    seq![0u8] + name
}

/// Whether what a file format adds to two names is the same.
pub open spec fn same_addition(a: Option<[u8; 16]>, b: Option<[u8; 16]>) -> bool {
    match (a, b) {
        (None, None) => true,
        (Some(a), Some(b)) => a@ == b@,
        _ => false,
    }
}

impl<'data> SectionIdentity<'data> {
    pub fn new(name: &'data [u8], format_specific: Option<[u8; 16]>) -> (identity: SectionIdentity<
        'data,
    >)
        ensures
            identity.name == name,
            identity.format_specific == format_specific,
    {
        SectionIdentity { name, format_specific }
    }

    /// The identity that consists of a name alone.
    pub fn from_name(name: &'data [u8]) -> (identity: SectionIdentity<'data>)
        ensures
            identity.name@ == name@,
            identity.format_specific is None,
            identity.key() == name_key(name@),
    {
        SectionIdentity::new(name, None)
    }

    /// A byte string that is different for different identities.
    pub open spec fn key(self) -> Seq<u8> {
        match self.format_specific {
            None => name_key(self.name@),
            Some(bytes) => seq![1u8] + bytes@ + self.name@,
        }
    }

    /// Whether two identities name the same section.
    pub open spec fn same(self, other: SectionIdentity) -> bool {
        self.name@ == other.name@ && same_addition(self.format_specific, other.format_specific)
    }

    /// Identities have the same key only if they name the same section.
    pub proof fn lemma_key(self, other: SectionIdentity)
        ensures
            self.key() == other.key() <==> self.same(other),
    {
        if self.key() == other.key() {
            assert(self.key()[0] == other.key()[0]);
            match (self.format_specific, other.format_specific) {
                (None, None) => {
                    assert(self.key().skip(1) =~= self.name@);
                    assert(other.key().skip(1) =~= other.name@);
                },
                (Some(own), Some(others)) => {
                    assert(self.key().subrange(1, 17) =~= own@);
                    assert(other.key().subrange(1, 17) =~= others@);
                    assert(self.key().skip(17) =~= self.name@);
                    assert(other.key().skip(17) =~= other.name@);
                },
                _ => {},
            }
        }
    }

    pub(crate) fn key_bytes(&self) -> (key: Vec<u8>)
        ensures
            key@ == self.key(),
    {
        let mut key: Vec<u8> = Vec::new();
        match self.format_specific {
            None => {
                key.push(0);
            },
            Some(bytes) => {
                key.push(1);
                append_bytes(&mut key, bytes.as_slice());
            },
        }
        append_bytes(&mut key, self.name);
        assert(key@ =~= self.key());
        key
    }

    /// Whether two identities name the same section.
    pub fn is_same(&self, other: &SectionIdentity<'data>) -> (same: bool)
        ensures
            same == self.same(*other),
    {
        bytes_equal(self.name, other.name) && match (self.format_specific, other.format_specific) {
            (None, None) => true,
            (Some(own), Some(others)) => bytes_equal(own.as_slice(), others.as_slice()),
            _ => false,
        }
    }
}

impl<'data> OnlyIfSlots<'data> {
    /// The placement that is in use: the preferred copy, or the other one if there is no such copy.
    pub open spec fn choice(self) -> Option<OnlyIfPlacement<'data>> {
        if self.prefer_rw {
            if self.rw is Some {
                self.rw
            } else {
                self.ro
            }
        } else {
            if self.ro is Some {
                self.ro
            } else {
                self.rw
            }
        }
    }

    /// No placements.
    pub fn empty() -> (slots: OnlyIfSlots<'data>)
        ensures
            slots.ro is None,
            slots.rw is None,
            !slots.prefer_rw,
    {
        OnlyIfSlots { ro: None, rw: None, prefer_rw: false }
    }

    /// Sets one of the two placements.
    pub fn set_slot(&mut self, only_if: OnlyIf, placement: OnlyIfPlacement<'data>)
        ensures
            *final(self) == (match only_if {
                OnlyIf::Ro => (OnlyIfSlots { ro: Some(placement), ..*old(self) }),
                OnlyIf::Rw => (OnlyIfSlots { rw: Some(placement), ..*old(self) }),
            }),
    {
        match only_if {
            OnlyIf::Ro => {
                self.ro = Some(placement);
            },
            OnlyIf::Rw => {
                self.rw = Some(placement);
            },
        }
    }

    /// The placement that is in use.
    pub fn chosen(&self) -> (placement: Option<OnlyIfPlacement<'data>>)
        ensures
            placement == self.choice(),
    {
        if self.prefer_rw {
            if self.rw.is_some() {
                self.rw
            } else {
                self.ro
            }
        } else if self.ro.is_some() {
            self.ro
        } else {
            self.rw
        }
    }
}

impl<'data> OutputSections<'data> {
    pub open spec fn infos(&self) -> Seq<SectionOutputInfo<'data>> {
        self.section_infos@
    }

    pub open spec fn count(&self) -> int {
        self.section_infos@.len() as int
    }

    /// Whether sections, parts and the references between sections are as they should be.
    pub open spec fn wf(&self) -> bool {
        &&& self.platform.wf()
        &&& self.platform.built_in_count() <= self.count()
        &&& self.platform.base_part(self.count()) <= u32::MAX
        &&& forall|id: int|
            0 <= id < self.count() ==> ((#[trigger] self.infos()[id]).kind matches
                SectionKind::Secondary(primary) ==> primary.0 < self.count()
                && self.infos()[primary.0 as int].kind is Primary)
        &&& forall|key: Seq<u8>| #[trigger]
            self.custom_by_identity@.contains_key(key) ==> self.custom_by_identity@[key]
                < self.count()
        &&& forall|key: u64| #[trigger]
            self.init_fini_by_priority@.contains_key(key) ==> self.init_fini_by_priority@[key]
                < self.count()
        &&& forall|id: u64| #[trigger]
            self.only_if_positions@.contains_key(id) ==> id < self.count()
                && self.only_if_positions@[id] < self.only_if_slots@.len()
        &&& forall|a: u64, b: u64|
            #![trigger self.only_if_positions@.contains_key(a), self.only_if_positions@.contains_key(b)]
            self.only_if_positions@.contains_key(a) && self.only_if_positions@.contains_key(b)
                && self.only_if_positions@[a] == self.only_if_positions@[b] ==> a == b
    }

    /// Whether another section can be added.
    pub open spec fn has_room(&self) -> bool {
        self.platform.base_part(self.count() + 1) <= u32::MAX
    }

    pub open spec fn has(&self, id: OutputSectionId) -> bool {
        id.0 < self.count()
    }

    pub open spec fn info(&self, id: OutputSectionId) -> SectionOutputInfo<'data> {
        self.infos()[id.0 as int]
    }

    /// The section that a section is merged into, which for a primary section is itself.
    pub open spec fn primary(&self, id: OutputSectionId) -> OutputSectionId {
        match self.info(id).kind {
            SectionKind::Primary(_) => id,
            SectionKind::Secondary(primary) => primary,
        }
    }

    /// The alignment of a part: what it stands for if its section has one part for each
    /// alignment, otherwise the least alignment of its section.
    pub open spec fn alignment_of(&self, part: PartId) -> nat {
        if part.0 < self.platform.regular_base() {
            self.infos()[part.0 as int].min_alignment.exp()
        } else {
            self.platform.exponent_of(part.0 as int) as nat
        }
    }

    /// Whether the section with the given ID is a primary one whose identity has the given key.
    pub open spec fn has_key(&self, id: int, key: Seq<u8>) -> bool {
        self.infos()[id].kind matches SectionKind::Primary(own) && own.key() == key
    }

    /// Sections that exist have parts that can be numbered.
    pub proof fn lemma_numbers_parts(&self, id: OutputSectionId)
        requires
            self.wf(),
            self.has(id),
        ensures
            self.platform.numbers_parts_of(id),
    {
        crate::output_section_id::lemma_parts_in_section_order(
            self.platform,
            id.0 as int,
            self.count(),
        );
    }

    /// The primary section of a section exists and is a primary one.
    pub proof fn lemma_primary(&self, id: OutputSectionId)
        requires
            self.wf(),
            self.has(id),
        ensures
            self.has(self.primary(id)),
            self.primary(self.primary(id)) == self.primary(id),
    {
        let info = self.infos()[id.0 as int];
    }

    /// A map with a value for each part of the platform's own sections.
    pub fn new_part_map<T: DefaultValue>(&self) -> (map: OutputSectionPartMap<T>)
        requires
            self.wf(),
        ensures
            map.wf(),
            map.dense() == self.platform.built_in_part_count(),
            map@ == Map::new(
                |id: u32| id < self.platform.built_in_part_count(),
                |id: u32| T::spec_default(),
            ),
    {
        let map: OutputSectionPartMap<T> = OutputSectionPartMap::with_dense_size(
            self.platform.num_built_in_parts() as usize,
        );
        assert(map@ =~= Map::new(
            |id: u32| id < self.platform.built_in_part_count(),
            |id: u32| T::spec_default(),
        ));
        map
    }

    /// A map with a value for each section.
    pub fn new_section_map<T: DefaultValue>(&self) -> (map: OutputSectionMap<T>)
        ensures
            map@ == Seq::new(self.count() as nat, |i: int| T::spec_default()),
    {
        OutputSectionMap::with_size(self.section_infos.len())
    }

    pub fn num_sections(&self) -> (count: usize)
        ensures
            count == self.count(),
    {
        self.section_infos.len()
    }

    /// The number of sections that have one part for each alignment.
    pub fn num_regular_sections(&self) -> (count: usize)
        requires
            self.wf(),
        ensures
            count == self.count() - self.platform.regular_base(),
    {
        self.section_infos.len() - self.platform.num_single_part_sections as usize
    }

    pub fn output_info(&self, id: OutputSectionId) -> (info: SectionOutputInfo<'data>)
        requires
            self.has(id),
        ensures
            info == self.info(id),
    {
        *self.section_infos.get(id)
    }

    /// The properties of a section.
    pub fn section_flags(&self, id: OutputSectionId) -> (attributes: SectionAttributes)
        requires
            self.has(id),
        ensures
            attributes == self.info(id).section_attributes,
    {
        self.section_infos.get(id).section_attributes
    }

    /// The section that a section is merged into; `None` for a primary section.
    pub fn merge_target(&self, id: OutputSectionId) -> (target: Option<OutputSectionId>)
        requires
            self.has(id),
        ensures
            target == (match self.info(id).kind {
                SectionKind::Primary(_) => None::<OutputSectionId>,
                SectionKind::Secondary(primary) => Some(primary),
            }),
    {
        match self.section_infos.get(id).kind {
            SectionKind::Primary(_) => None,
            SectionKind::Secondary(primary) => Some(primary),
        }
    }

    /// The section that a section is merged into, which for a primary section is itself.
    pub fn primary_output_section(&self, id: OutputSectionId) -> (primary: OutputSectionId)
        requires
            self.has(id),
        ensures
            primary == self.primary(id),
    {
        match self.merge_target(id) {
            Some(primary) => primary,
            None => id,
        }
    }

    /// Whether the contents of the section are in the file.
    pub fn has_data_in_file(&self, id: OutputSectionId) -> (has_data: bool)
        requires
            self.has(id),
        ensures
            has_data == !self.info(id).section_attributes.no_bits,
    {
        !self.section_infos.get(id).section_attributes.no_bits
    }

    pub fn min_alignment(&self, id: OutputSectionId) -> (alignment: Alignment)
        requires
            self.has(id),
        ensures
            alignment == self.info(id).min_alignment,
    {
        self.section_infos.get(id).min_alignment
    }

    /// The alignment of a part of a section.
    pub fn part_alignment(&self, part_id: PartId) -> (alignment: Alignment)
        requires
            self.wf(),
        ensures
            alignment.exp() == self.alignment_of(part_id),
    {
        if part_id.0 < self.platform.num_single_part_sections {
            self.min_alignment(OutputSectionId(part_id.0))
        } else {
            part_id.regular_alignment(&self.platform)
        }
    }

    pub fn secondary_order(&self, id: OutputSectionId) -> (order: Option<SecondaryOrder>)
        requires
            self.has(id),
        ensures
            order == self.info(id).secondary_order,
    {
        self.section_infos.get(id).secondary_order
    }

    /// The identity of a primary section.
    pub fn identity(&self, id: OutputSectionId) -> (identity: Option<SectionIdentity<'data>>)
        requires
            self.has(id),
        ensures
            identity == (match self.info(id).kind {
                SectionKind::Primary(identity) => Some(identity),
                SectionKind::Secondary(_) => None::<SectionIdentity>,
            }),
    {
        match self.section_infos.get(id).kind {
            SectionKind::Primary(identity) => Some(identity),
            SectionKind::Secondary(_) => None,
        }
    }

    /// The name of a primary section.
    pub fn name(&self, id: OutputSectionId) -> (name: Option<&'data [u8]>)
        requires
            self.has(id),
        ensures
            name == (match self.info(id).kind {
                SectionKind::Primary(identity) => Some(identity.name),
                SectionKind::Secondary(_) => None::<&[u8]>,
            }),
    {
        match self.identity(id) {
            Some(identity) => Some(identity.name),
            None => None,
        }
    }
}

} // verus!
