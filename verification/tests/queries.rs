use libwild::alignment::Alignment;
use libwild::dependency_file::incremental_section_snapshot;
use libwild::file_id::FileId;
use libwild::hash_maps::IdMap;
use libwild::incremental_plan::PreviousLink;
use libwild::input_sections::{Section, SectionSlot};
use libwild::layout_queries::{
    ArchiveEntryInfo, EntryError, FileLayout, Layout, ObjectLayout, OtherLayout,
};
use libwild::macho_sections::built_in_section_infos;
use libwild::macho_segments::{platform_sections, SinglePartSectionId};
use libwild::output_kind::{OutputKind, RelocationModel};
use libwild::output_section_id::{file_header, OutputSectionId};
use libwild::output_section_map::OutputSectionMap;
use libwild::output_sections::{
    CustomSectionDetails, OnlyIf, OutputSections, SectionIdentity, SectionLocationInfo,
};
use libwild::record_layout::OutputRecordLayout;
use libwild::resolution::{Resolution, SectionResolution};
use libwild::segment_layout::SegmentLayouts;
use libwild::symbol_id::{SymbolId, SymbolIdRange};
use libwild::value_flags::ValueFlags;

fn record(mem_offset: u64, mem_size: u64) -> OutputRecordLayout {
    OutputRecordLayout {
        file_size: mem_size,
        mem_size,
        alignment: Alignment::new(16).unwrap(),
        file_offset: mem_offset,
        mem_offset,
        lma_offset: mem_offset,
    }
}

fn resolution(raw_value: u64) -> Option<Resolution> {
    Some(Resolution {
        raw_value,
        dynamic_symbol_index: None,
        flags: ValueFlags::empty(),
        got_address: None,
        plt_address: None,
    })
}

fn layout() -> Layout<'static> {
    let mut output_sections = OutputSections::with_base_address(
        platform_sections(),
        built_in_section_infos(),
        0x1000,
        OutputKind::StaticExecutable(RelocationModel::Fixed),
    );
    let (id, part_id) = output_sections.add_section(CustomSectionDetails {
        identity: SectionIdentity::new(b"__text", None),
        index: 0,
        alignment: Alignment::new(4).unwrap(),
        start_address: None,
    });
    output_sections
        .section_infos
        .get_mut(id)
        .section_attributes
        .alloc = true;
    output_sections.output_section_indexes = (0..output_sections.num_sections())
        .map(|index| {
            if index == id.as_usize() {
                Some(1)
            } else {
                None
            }
        })
        .collect();
    let mut section_layouts: OutputSectionMap<OutputRecordLayout> =
        output_sections.new_section_map();
    section_layouts.set(id, record(0x2000, 0x100));
    section_layouts.set(
        SinglePartSectionId::Got.output_section_id(),
        record(0x4000, 0x10),
    );
    let section_part_layouts = output_sections.new_part_map();
    let object = ObjectLayout {
        file_id: FileId::new(1, 0),
        symbol_id_range: SymbolIdRange::input(SymbolId::new(1), 2),
        key: b"key",
        path: b"libx.a",
        archive_entry: Some(ArchiveEntryInfo {
            start: 8,
            end: 64,
            identifier: b"x.o",
        }),
        temporary: false,
        sections: vec![
            SectionSlot::Loaded(Section::create(0x10, 4).unwrap()),
            SectionSlot::Discard,
        ],
        section_resolutions: vec![
            SectionResolution { address: 0x2000 },
            SectionResolution::none(),
        ],
        section_part_ids: vec![part_id, part_id],
        section_sizes: vec![Some(0x10), None],
    };
    Layout {
        group_layouts: vec![
            vec![FileLayout::Prelude {
                num_symbols: 1,
                entry_symbol_id: Some(SymbolId::new(1)),
            }],
            vec![
                FileLayout::Object(object),
                FileLayout::Dynamic(OtherLayout {
                    file_id: FileId::new(1, 1),
                    symbol_id_range: SymbolIdRange::input(SymbolId::new(3), 1),
                    key: b"dyn",
                    path: b"libd.so",
                }),
            ],
        ],
        symbol_resolutions: vec![None, resolution(0x2004), None, resolution(0x9999)],
        definitions: vec![
            SymbolId::new(0),
            SymbolId::new(1),
            SymbolId::new(1),
            SymbolId::new(3),
        ],
        per_symbol_flags: vec![ValueFlags::empty(); 4],
        symbol_file_ids: vec![
            FileId::new(0, 0),
            FileId::new(1, 0),
            FileId::new(1, 0),
            FileId::new(1, 1),
        ],
        symbol_id_ranges: vec![
            vec![SymbolIdRange::prelude(1)],
            vec![
                SymbolIdRange::input(SymbolId::new(1), 2),
                SymbolIdRange::input(SymbolId::new(3), 1),
            ],
        ],
        output_sections,
        section_layouts,
        section_part_layouts,
        segment_layouts: SegmentLayouts {
            segments: Vec::new(),
            tls_layout: Some(record(0x3008, 0x20)),
        },
        thunk_block_sizes: vec![2, 3],
        got_section_id: Some(SinglePartSectionId::Got.output_section_id()),
        gnu_version_section_id: None,
        incremental: true,
        incremental_atoms: IdMap::new(),
        incremental_skip_payloads: IdMap::new(),
        incremental_reverse_relocs: Vec::new(),
        incremental_patch: None,
    }
}

#[test]
fn symbols_have_the_resolution_of_their_definition() {
    let layout = layout();
    assert!(layout.local_symbol_resolution(SymbolId::new(2)).is_none());
    assert_eq!(
        layout
            .merged_symbol_resolution(SymbolId::new(2))
            .unwrap()
            .raw_value,
        0x2004
    );
    assert_eq!(layout.resolved_entry_symbol_address(), Ok(Some(0x2004)));
    assert_eq!(layout.prelude_entry(), Some(SymbolId::new(1)));
    assert_eq!(
        layout
            .resolutions_in_range(SymbolIdRange::input(SymbolId::new(1), 2))
            .len(),
        2
    );
    assert_eq!(
        layout.flags_for_symbol(SymbolId::new(2)),
        ValueFlags::empty()
    );
}

#[test]
fn entry_symbols_have_to_be_loaded() {
    let mut layout = layout();
    layout.symbol_resolutions[1] = None;
    assert_eq!(
        layout.resolved_entry_symbol_address(),
        Err(EntryError::NotLoaded)
    );
    layout.group_layouts[0][0] = FileLayout::Prelude {
        num_symbols: 1,
        entry_symbol_id: None,
    };
    assert_eq!(layout.resolved_entry_symbol_address(), Ok(None));
}

#[test]
fn layouts_know_addresses() {
    let layout = layout();
    assert_eq!(layout.tls_start_address(), 0x3008);
    assert_eq!(layout.tls_start_address_aligned(), 0x3000);
    assert_eq!(layout.tls_end_address(), Some(0x3030));
    // What follows thread-local data is aligned as an address is.
    let mut narrow = self::layout();
    let mut tls = narrow.segment_layouts.tls_layout.unwrap();
    tls.alignment = Alignment::new(4).unwrap();
    tls.mem_offset = 0x1000;
    tls.mem_size = 4;
    narrow.segment_layouts.tls_layout = Some(tls);
    assert_eq!(narrow.tls_end_address(), Some(0x1008));
    assert_eq!(layout.tls_start_address_aarch64(), 0x2ff0);
    assert_eq!(layout.got_base(), 0x4000);
    assert!(!layout.gnu_version_enabled());
    assert_eq!(layout.thunk_count(), Some(5));
    assert_eq!(
        layout.mem_address_of_built_in(SinglePartSectionId::Got.output_section_id()),
        0x4000
    );
    assert!(matches!(
        layout.file_layout(FileId::new(1, 1)),
        FileLayout::Dynamic(_)
    ));
}

#[test]
fn files_are_recorded() {
    let mut layout = layout();
    let records = layout.incremental_file_records();
    let keys: Vec<&[u8]> = records.iter().map(|record| record.key).collect();
    assert!(keys.contains(&&b"key"[..]));
    assert!(!layout.skip_incremental_payload(FileId::new(1, 0)));
    assert_eq!(
        layout.values_of_range(SymbolIdRange::input(SymbolId::new(1), 2)).len(),
        2
    );
    assert!(layout.take_reverse_relocs().is_empty());
    let data = match layout.layout_data() {
        Ok(data) => data,
        Err(_) => panic!("overflow"),
    };
    assert_eq!(data.thunk_count, 5);
    assert_eq!(data.files.len(), 1);
    assert_eq!(data.files[0].sections[0], Some((0x2000, 0x2010)));
    assert_eq!(data.files[0].sections[1], None);
}

#[test]
fn emitted_sections_have_neighbours() {
    let layout = layout();
    let sections = &layout.output_sections;
    let id = OutputSectionId::from_usize(sections.num_sections() - 1);
    assert!(sections.will_emit_section(id));
    assert!(!sections.will_emit_section(file_header()));
    assert_eq!(sections.output_index_of_section(id), Some(1));
    assert_eq!(
        sections.following_emitted_section_id(file_header()),
        Some(id)
    );
    assert_eq!(sections.previous_emitted_section_id(id), None);
    assert_eq!(sections.output_index_of_nearest_section(id), Some(1));
    assert_eq!(sections.output_index_of_nearest_section(file_header()), None);
    let (snapshot, _) = incremental_section_snapshot(sections, &layout.section_layouts);
    assert!(snapshot.iter().any(|section| section.name == b"__text"));
}

#[test]
fn sections_can_depend_on_their_contents() {
    let mut layout = layout();
    let id = OutputSectionId::from_usize(layout.output_sections.num_sections() - 1);
    let location = SectionLocationInfo {
        location_counters: (0, 0),
        location: None,
        at_location: None,
        at_region: None,
        is_top_level: true,
        overlay: None,
    };
    let sections = &mut layout.output_sections;
    sections.record_only_if(id, OnlyIf::Ro, 3, location, &[]);
    sections.record_only_if(id, OnlyIf::Rw, 5, location, &[]);
    assert!(sections.should_emit_only_if_order_slot(id, 3));
    assert!(!sections.should_emit_only_if_order_slot(id, 5));
    let mut writable = IdMap::new();
    writable.insert(id.as_u32() as u64, 1);
    sections.apply_only_if_choice(&writable);
    assert!(sections.should_emit_only_if_order_slot(id, 5));
    assert!(!sections.should_emit_only_if_order_slot(id, 3));
}

#[test]
fn places_that_depend_on_symbols_are_recorded() {
    let mut layout = layout();
    // Nothing is recorded unless inputs are linked incrementally.
    layout.incremental = false;
    layout.record_reverse_reloc(SymbolId::new(2), 0x10, 0x2010, 4, 7, FileId::new(1, 0));
    assert!(layout.take_reverse_relocs().is_empty());
    layout.incremental = true;
    layout.incremental_atoms = IdMap::new();
    layout.record_reverse_reloc(SymbolId::new(2), 0x10, 0x2010, 4, 7, FileId::new(1, 0));
    assert!(layout.take_reverse_relocs().is_empty());
    layout
        .incremental_atoms
        .insert(FileId::new(1, 0).as_u32() as u64, 55);
    layout.record_reverse_reloc(SymbolId::new(2), 0x10, 0x2010, 4, 7, FileId::new(1, 0));
    let relocs = layout.take_reverse_relocs();
    assert_eq!(relocs.len(), 1);
    assert_eq!(
        (relocs[0].definition_atom, relocs[0].owner_atom, relocs[0].local_symbol),
        (55, 55, 0)
    );
    assert_eq!((relocs[0].place, relocs[0].addend), (0x2010, 4));
    assert!(layout.take_reverse_relocs().is_empty());

    let resolutions = layout.incremental_resolutions();
    assert_eq!(resolutions.len(), 1);
    assert_eq!(resolutions[0].0, 55);
    assert_eq!(resolutions[0].1, vec![0x2004, 0]);
    assert_eq!(layout.tlv_data_start_address(), 0);
}

#[test]
fn incremental_plans_are_taken_over() {
    let mut layout = layout();
    let mut previous = PreviousLink {
        resolutions: Some(vec![(9, vec![0x2004])]),
        reverse_relocs: Some(Vec::new()),
    };
    let mut atoms = IdMap::new();
    atoms.insert(FileId::new(1, 0).0 as u64, 9);
    layout.plan_in_place_update(atoms, IdMap::new(), &mut previous);
    assert_eq!(layout.incremental_atoms.get(FileId::new(1, 0).0 as u64), Some(9));
    assert!(layout.incremental_patch.is_none());
    assert!(previous.resolutions.is_some());
    let mut skipped = IdMap::new();
    skipped.insert(FileId::new(1, 0).0 as u64, 0);
    layout.plan_in_place_update(IdMap::new(), skipped, &mut previous);
    assert!(layout.skip_incremental_payload(FileId::new(1, 0)));
    assert_eq!(
        layout.incremental_patch.unwrap().old_resolutions,
        vec![(9, vec![0x2004])]
    );
    assert!(previous.resolutions.is_none() && previous.reverse_relocs.is_none());
}
