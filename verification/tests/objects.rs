use libwild::alignment::Alignment;
use libwild::expression_eval::SymbolValue;
use libwild::file_id::FileId;
use libwild::group_layout::{
    compute_symbols_and_layouts, finalise_group_layout, FileToPlace, GroupContext, GroupError,
    GroupLayout, GroupToPlace, InternalSymbol, PlacedFile,
};
use libwild::group_sizes::finalise_group_sizes;
use libwild::group_tables::{
    finalise_group_tables, TableError, TablePart, TableParts, TableStarts,
};
use libwild::groups::{
    compute_start_offsets_by_group, section_group_order, FileState, GroupState, ObjectState,
    ObjectSymbol, SectionGroupOrder, SymbolSection,
};
use libwild::input_sections::{
    compute_object_section_positions, InputSection, Section, SectionSlot, UnloadedSection,
};
use libwild::internal_symbols::{
    create_internal_symbol_resolution, default_create_resolutions, internal_symbol_value,
    InternalContext, SymbolPlacement,
};
use libwild::macho_attributes::MachOAttributes;
use libwild::macho_sections::built_in_section_infos;
use libwild::macho_segments::{platform_sections, SinglePartSectionId};
use libwild::object_layout::{
    assign_thunk_addresses, finalise_layout, OwnedThunks, SectionContext,
};
use libwild::output_kind::{OutputKind, RelocationModel};
use libwild::output_section_id::{OutputSectionId, PartId};
use libwild::output_section_map::OutputSectionMap;
use libwild::output_section_part_map::OutputSectionPartMap;
use libwild::output_sections::{CustomSectionDetails, OutputSections, SectionIdentity};
use libwild::program_segments::{ProgramSegmentDef, ProgramSegmentId, ProgramSegments};
use libwild::record_layout::OutputRecordLayout;
use libwild::relax_deltas::{sum_deleted, RelaxDeltas};
use libwild::relaxation::{sections_to_scan, ScanOutcome};
use libwild::relaxation_loop::{perform_iterative_relaxation, Outcomes, Positions, RelaxationError};
use libwild::relaxation_pass::{relaxation_scan_pass, RelaxationLoop};
use libwild::resolution::{
    create_resolution, EntryParts, Resolution, ResolutionError, SectionResolution,
};
use libwild::resolution_writer::{ResolutionWriter, TooManyResolutions};
use libwild::secondary_sections::merge_secondary_parts;
use libwild::section_loading::{handle_section_load_request, CommonGroupState, SectionHeaderInfo};
use libwild::section_positions::compute_input_section_positions;
use libwild::segment_layout::SegmentLayout;
use libwild::small_lists::{IndexList, MarginList};
use libwild::symbol_addresses::{
    compute_section_and_symbol_addresses, compute_symbol_addresses,
    object_symbol_address_in_layout, resolve_early_object_symbol, EarlySymbolError,
    SymbolLayoutError, SymbolOutputInfos,
};
use libwild::symbol_id::{SymbolId, SymbolIdRange};
use libwild::value_flags::ValueFlags;

fn sections_for_testing() -> (OutputSections<'static>, PartId) {
    let mut sections = OutputSections::with_base_address(
        platform_sections(),
        built_in_section_infos(),
        0x1000,
        OutputKind::StaticExecutable(RelocationModel::Fixed),
    );
    let (_, part_id) = sections.add_section(CustomSectionDetails {
        identity: SectionIdentity::new(b"__text", None),
        index: 0,
        alignment: Alignment::new(4).unwrap(),
        start_address: None,
    });
    (sections, part_id)
}

fn parts() -> EntryParts {
    EntryParts {
        got: SinglePartSectionId::Got.part_id(),
        plt: SinglePartSectionId::PltGot.part_id(),
    }
}

fn symbol(section: SymbolSection, offset: u64) -> ObjectSymbol {
    ObjectSymbol {
        section,
        offset_in_section: Some(offset),
        value: 0x77,
        absolute: false,
        undefined: false,
        local: false,
        weak: false,
        hidden: false,
        common: None,
        mapping: false,
    }
}

fn loaded(size: u64) -> SectionSlot {
    SectionSlot::Loaded(Section::create(size, 4).unwrap())
}

fn object(part_id: PartId, slots: Vec<SectionSlot>, symbols: Vec<ObjectSymbol>) -> ObjectState {
    let count = slots.len();
    ObjectState {
        file_id: FileId::new(1, 0),
        symbol_id_range: SymbolIdRange::input(SymbolId::new(1), symbols.len()),
        link_order: 7,
        inputs: slots
            .into_iter()
            .map(|slot| InputSection {
                slot,
                part_id,
                packed: false,
                executable: true,
            })
            .collect(),
        symbols,
        relax_deltas: (0..count).map(|_| RelaxDeltas::empty()).collect(),
        script_sorted_sections: Vec::new(),
        post_gc_primary_bytes: 0,
    }
}

#[test]
fn deleted_bytes_move_what_follows() {
    let mut deltas = RelaxDeltas::empty();
    assert_eq!(deltas.input_to_output(100), Some(100));
    deltas.merge_additional(&vec![(8, 4)]);
    deltas.merge_additional(&vec![(2, 2), (16, 4)]);
    assert_eq!(deltas.input_to_output(2), Some(2));
    assert_eq!(deltas.input_to_output(3), Some(1));
    assert_eq!(deltas.input_to_output(12), Some(6));
    assert_eq!(deltas.input_to_output(20), Some(10));
    assert_eq!(sum_deleted(&deltas.deltas), Some(10));
}

#[test]
fn groups_start_where_others_end() {
    let (sections, part_id) = sections_for_testing();
    let group = |size: u64, order: SectionGroupOrder| {
        let mut mem_sizes: OutputSectionPartMap<u64> = sections.new_part_map();
        mem_sizes.set(part_id, size);
        GroupState {
            files: Vec::new(),
            mem_sizes,
            section_group_order: order,
        }
    };
    let mut offsets: OutputSectionPartMap<u64> = sections.new_part_map();
    offsets.set(part_id, 0x1000);
    let groups = vec![
        group(0x10, SectionGroupOrder::Prelude),
        group(0x20, SectionGroupOrder::Object(5)),
        group(0x40, SectionGroupOrder::Object(2)),
    ];
    let starts = compute_start_offsets_by_group(&groups, offsets.duplicate()).unwrap();
    // What comes first on the command line comes first in the output.
    assert_eq!(starts[0].get(part_id), 0x1000);
    assert_eq!(starts[2].get(part_id), 0x1010);
    assert_eq!(starts[1].get(part_id), 0x1050);
    let huge = vec![group(u64::MAX, SectionGroupOrder::Other)];
    assert!(compute_start_offsets_by_group(&huge, offsets).is_none());

    let file = object(part_id, Vec::new(), Vec::new());
    assert_eq!(
        section_group_order(&vec![FileState::Object(file)]),
        SectionGroupOrder::Object(7)
    );
    assert_eq!(
        section_group_order(&vec![FileState::Epilogue]),
        SectionGroupOrder::Epilogue
    );
    assert_eq!(section_group_order(&Vec::new()), SectionGroupOrder::Other);
}

#[test]
fn sections_follow_in_their_part() {
    let (sections, part_id) = sections_for_testing();
    let file = object(
        part_id,
        vec![loaded(5), SectionSlot::Discard, loaded(8)],
        Vec::new(),
    );
    let mut offsets: OutputSectionPartMap<u64> = sections.new_part_map();
    offsets.set(part_id, 0x1000);
    let positions =
        compute_object_section_positions(&file.inputs, &mut offsets, &sections).unwrap();
    assert_eq!(positions[0].unwrap().address, 0x1000);
    assert!(positions[1].is_none());
    assert_eq!(positions[2].unwrap().address, 0x1008);
    assert_eq!(offsets.get(part_id), 0x1010);
    assert!(Section::create(1, 3).is_none());
    assert_eq!(Section::create(5, 8).unwrap().place(0x1001), (0x1008, 0x100d));
}

fn one_group(part_id: PartId, sections: &OutputSections<'static>) -> Vec<GroupState> {
    let file = object(
        part_id,
        vec![loaded(0x10), loaded(0x20)],
        vec![
            symbol(SymbolSection::InSection(1), 8),
            symbol(SymbolSection::NoSection, 0),
        ],
    );
    let mut mem_sizes: OutputSectionPartMap<u64> = sections.new_part_map();
    mem_sizes.set(part_id, 0x30);
    vec![GroupState {
        files: vec![FileState::Object(file)],
        mem_sizes,
        section_group_order: SectionGroupOrder::Object(0),
    }]
}

#[test]
fn symbols_are_in_their_sections() {
    let (sections, part_id) = sections_for_testing();
    let groups = one_group(part_id, &sections);
    let mut offsets: OutputSectionPartMap<u64> = sections.new_part_map();
    offsets.set(part_id, 0x1000);
    let positions = compute_input_section_positions(&groups, offsets, &sections).unwrap();
    let definitions = vec![SymbolId::new(0), SymbolId::new(1), SymbolId::new(2)];
    let infos = compute_symbol_addresses(&groups, &positions, &definitions).unwrap();
    assert_eq!(infos.addresses[1], 0x1018);
    let flags = vec![ValueFlags::empty(); 3];
    assert_eq!(
        infos.resolve(SymbolId::new(1), &flags).unwrap().output_address,
        0x1018
    );
    let FileState::Object(file) = &groups[0].files[0] else {
        panic!("not an object");
    };
    let early = resolve_early_object_symbol(SymbolId::new(1), file, &positions[0][0]).unwrap();
    assert!(matches!(
        early,
        SymbolValue::PartRelative { offset, .. } if offset == 0x1018
    ) || matches!(early, SymbolValue::Absolute(0x1018)));
    let discarded = object(
        part_id,
        vec![SectionSlot::Discard],
        vec![symbol(SymbolSection::Unreadable, 0)],
    );
    assert_eq!(
        resolve_early_object_symbol(SymbolId::new(1), &discarded, &vec![None]).err(),
        Some(EarlySymbolError::Unreadable)
    );
    let layouts: OutputSectionMap<OutputRecordLayout> = sections.new_section_map();
    assert_eq!(
        object_symbol_address_in_layout(symbol(SymbolSection::Unreadable, 0), None, &layouts),
        Err(SymbolLayoutError::Unreadable)
    );
}

#[test]
fn relaxation_shrinks_sections() {
    let (sections, part_id) = sections_for_testing();
    let mut groups = one_group(part_id, &sections);
    let mut offsets: OutputSectionPartMap<u64> = sections.new_part_map();
    offsets.set(part_id, 0x1000);
    let positions = compute_input_section_positions(&groups, offsets, &sections).unwrap();
    let mut sizes: OutputSectionPartMap<u64> = sections.new_part_map();
    sizes.set(part_id, 0x30);
    let mut state = RelaxationLoop::new();
    assert!(state.should_scan());
    let FileState::Object(file) = &groups[0].files[0] else {
        panic!("not an object");
    };
    let list = sections_to_scan(file, None);
    assert_eq!(list.len(), 2);
    let outcomes = vec![vec![vec![
        Some(ScanOutcome {
            raw_deltas: vec![(4, 4)],
            min_margin: Some(4),
        }),
        Some(ScanOutcome {
            raw_deltas: Vec::new(),
            min_margin: Some(100),
        }),
    ]]];
    let (deleted, candidates) = relaxation_scan_pass(
        &mut groups,
        &mut sizes,
        &vec![vec![list]],
        &outcomes,
        &positions,
        &sections,
    )
    .unwrap();
    assert_eq!(deleted, 4);
    assert_eq!(sizes.get(part_id), 0x2c);
    assert_eq!(groups[0].mem_sizes.get(part_id), 0x2c);
    let FileState::Object(file) = &groups[0].files[0] else {
        panic!("not an object");
    };
    match file.inputs[0].slot {
        SectionSlot::Loaded(section) => assert_eq!(section.size, 0xc),
        _ => panic!("not loaded"),
    }
    // Only sections within reach of what was deleted are scanned again.
    assert!(state.after_pass(deleted, &candidates));
    let rescan = state.rescan.as_ref().unwrap();
    assert_eq!(rescan[0][0].len(), 1);
    assert_eq!(rescan[0][0].get(0), 0);
    assert!(state.should_scan());
    assert!(!state.after_pass(0, &candidates));
}

#[test]
fn all_deleted_bytes_are_counted() {
    let (mut sections, _) = sections_for_testing();
    let (_, part_id) = sections.add_section(CustomSectionDetails {
        identity: SectionIdentity::new(b"__wide", None),
        index: 1,
        alignment: Alignment::new(8).unwrap(),
        start_address: None,
    });
    let mut mem_sizes: OutputSectionPartMap<u64> = sections.new_part_map();
    mem_sizes.set(part_id, 16);
    let mut groups = vec![GroupState {
        files: vec![FileState::Object(object(part_id, vec![loaded(16)], Vec::new()))],
        mem_sizes,
        section_group_order: SectionGroupOrder::Object(0),
    }];
    let mut offsets: OutputSectionPartMap<u64> = sections.new_part_map();
    offsets.set(part_id, 0x1000);
    let positions = compute_input_section_positions(&groups, offsets, &sections).unwrap();
    let mut sizes: OutputSectionPartMap<u64> = sections.new_part_map();
    sizes.set(part_id, 16);
    let mut list = IndexList::new();
    list.push(0);
    let outcomes = vec![vec![vec![Some(ScanOutcome {
        raw_deltas: vec![(4, 2)],
        min_margin: None,
    })]]];
    let (deleted, _) = relaxation_scan_pass(
        &mut groups,
        &mut sizes,
        &vec![vec![list]],
        &outcomes,
        &positions,
        &sections,
    )
    .unwrap();
    // The section is smaller, though the space that it takes up is not.
    assert_eq!(deleted, 2);
    assert_eq!(sizes.get(part_id), 16);
    let FileState::Object(file) = &groups[0].files[0] else {
        panic!("not an object");
    };
    assert!(matches!(file.inputs[0].slot, SectionSlot::Loaded(section) if section.size == 14));
}

type PartLayouts = OutputSectionPartMap<OutputRecordLayout>;

fn layouts_at(part_id: PartId, start: u64, sections: &OutputSections<'static>) -> PartLayouts {
    let mut layouts: PartLayouts = sections.new_part_map();
    let mut layout = layouts.get(part_id);
    layout.mem_offset = start;
    layouts.set(part_id, layout);
    layouts
}

/// Relaxes a group. In pass `i`, the second section loses `deletions[i]` bytes. Returns how often
/// sections were scanned and laid out too.
fn relax(
    start: u64,
    deletions: &[u32],
    layout_result: Result<u64, &'static str>,
) -> (Result<u64, &'static str>, usize, usize, u64) {
    let (sections, part_id) = sections_for_testing();
    let mut groups = one_group(part_id, &sections);
    let mut sizes: OutputSectionPartMap<u64> = sections.new_part_map();
    sizes.set(part_id, 0x30);
    let definitions = vec![SymbolId::new(0), SymbolId::new(1), SymbolId::new(2)];
    let scans = std::cell::Cell::new(0);
    let laid_out = std::cell::Cell::new(0);
    let scanner = |_: &Vec<GroupState>,
                   lists: &Vec<Vec<IndexList>>,
                   positions: &Positions,
                   symbols: &SymbolOutputInfos|
     -> Outcomes {
        assert_eq!(positions[0][0][0].unwrap().address, start);
        assert!(symbols.addresses[1] > start);
        let bytes = deletions.get(scans.get()).copied().unwrap_or(0);
        scans.set(scans.get() + 1);
        let list = &lists[0][0];
        let outcome = |i: usize| {
            Some(ScanOutcome {
                raw_deltas: if list.get(i) == 1 && bytes > 0 {
                    vec![(4 * scans.get() as u64, bytes)]
                } else {
                    Vec::new()
                },
                min_margin: Some(if list.get(i) == 1 { 0 } else { 1000 }),
            })
        };
        vec![vec![(0..list.len()).map(outcome).collect()]]
    };
    let layout = |_: &Vec<GroupState>, sizes: &OutputSectionPartMap<u64>| {
        laid_out.set(laid_out.get() + 1);
        layout_result.map(|start| (layouts_at(part_id, start, &sections), sizes.get(part_id)))
    };
    let result = perform_iterative_relaxation(
        &mut groups,
        &mut sizes,
        layouts_at(part_id, start, &sections),
        0x30u64,
        &definitions,
        &sections,
        scanner,
        layout,
    );
    let result = match result {
        Ok((_, size)) => Ok(size),
        Err(RelaxationError::Overflow) => Err("overflow"),
        Err(RelaxationError::TooMuchDeleted) => Err("too much deleted"),
        Err(RelaxationError::Layout(error)) => Err(error),
    };
    (result, scans.get(), laid_out.get(), sizes.get(part_id))
}

#[test]
fn relaxation_goes_on_while_it_helps() {
    // The last pass deletes nothing, so nothing is laid out after it.
    assert_eq!(relax(0x1000, &[4, 4], Ok(0x1000)), (Ok(0x28), 3, 2, 0x28));
    assert_eq!(relax(0x1000, &[], Ok(0x1000)), (Ok(0x30), 1, 0, 0x30));
    // Less than the alignment of the part is deleted in each pass.
    assert_eq!(relax(0x1000, &[2, 2], Ok(0x1000)), (Ok(0x2c), 3, 2, 0x2c));
    // There are no more than five passes.
    let deletions = [4; 7];
    let (result, scans, laid_out, _) = relax(0x1000, &deletions, Ok(0x1000));
    assert_eq!((scans, laid_out), (5, 5));
    assert_eq!(result, Ok(0x1c));
    assert_eq!(relax(0x1000, &[0x24], Ok(0x1000)).0, Err("too much deleted"));
    assert_eq!(relax(0x1000, &[4], Err("no room")).0, Err("no room"));
    assert_eq!(relax(u64::MAX - 8, &[4], Ok(0x1000)).0, Err("overflow"));
}

#[test]
fn sections_and_symbols_are_placed_together() {
    let (sections, part_id) = sections_for_testing();
    let groups = one_group(part_id, &sections);
    let definitions = vec![SymbolId::new(0), SymbolId::new(1), SymbolId::new(2)];
    let layouts = layouts_at(part_id, 0x1000, &sections);
    let (positions, symbols) =
        compute_section_and_symbol_addresses(&groups, &layouts, &definitions, &sections).unwrap();
    assert_eq!(positions[0][0][1].unwrap().address, 0x1010);
    assert_eq!(symbols.addresses[1], 0x1018);
    let layouts = layouts_at(part_id, u64::MAX, &sections);
    assert!(
        compute_section_and_symbol_addresses(&groups, &layouts, &definitions, &sections).is_none()
    );
}

#[test]
fn short_lists_keep_their_order() {
    let mut list = IndexList::new();
    assert!(list.is_empty());
    for index in 0..40 {
        list.push(index * 3);
    }
    assert_eq!(list.len(), 40);
    assert_eq!(list.get(39), 117);
    assert_eq!(list.duplicate().get(20), 60);
    let mut margins = MarginList::new();
    margins.push(5, 100);
    margins.push(6, 200);
    assert_eq!(margins.len(), 2);
    assert_eq!(margins.get(1), (6, 200));
}

#[test]
fn symbols_stand_for_their_entries() {
    let (sections, _) = sections_for_testing();
    let mut offsets: OutputSectionPartMap<u64> = sections.new_part_map();
    let plt = ValueFlags {
        plt: true,
        got: true,
        ..ValueFlags::empty()
    };
    assert_eq!(
        create_resolution(plt, 0x77, None, &mut offsets, parts()),
        Err(ResolutionError::PltAtZero)
    );
    offsets.set(parts().plt, 0x1000);
    assert_eq!(
        create_resolution(plt, 0x77, None, &mut offsets, parts()),
        Err(ResolutionError::GotAtZero)
    );
    offsets.set(parts().plt, 0x1000);
    offsets.set(parts().got, 0x4000);
    let resolution = create_resolution(plt, 0x77, Some(3), &mut offsets, parts()).unwrap();
    assert_eq!(
        resolution,
        Resolution {
            raw_value: 0x1000,
            dynamic_symbol_index: Some(3),
            flags: plt,
            got_address: Some(0x4000),
            plt_address: Some(0x1000),
        }
    );
    assert_eq!(resolution.dynamic_symbol_index(), Ok(3));
    assert_eq!((offsets.get(parts().plt), offsets.get(parts().got)), (0x100c, 0x4008));
    let got = ValueFlags {
        got: true,
        ..ValueFlags::empty()
    };
    let resolution = create_resolution(got, 0x77, None, &mut offsets, parts()).unwrap();
    assert_eq!(resolution.raw_value, 0x4008);
    assert_eq!(
        resolution.dynamic_symbol_index(),
        Err(ResolutionError::MissingDynamicSymbolIndex)
    );
    let plain = create_resolution(ValueFlags::empty(), 0x77, None, &mut offsets, parts()).unwrap();
    assert_eq!(plain.value(), 0x77);
    assert_eq!(SectionResolution::none().address(), None);
    assert_eq!(SectionResolution { address: 5 }.address(), Some(5));
}

#[test]
fn objects_are_laid_out() {
    let (sections, part_id) = sections_for_testing();
    let file = object(
        part_id,
        vec![loaded(0x10), SectionSlot::Discard, loaded(0x20)],
        vec![
            symbol(SymbolSection::InSection(2), 4),
            symbol(SymbolSection::InSection(0), 0),
        ],
    );
    let mut offsets: OutputSectionPartMap<u64> = sections.new_part_map();
    offsets.set(part_id, 0x2000);
    let direct = ValueFlags {
        direct: true,
        ..ValueFlags::empty()
    };
    let flags = vec![ValueFlags::empty(), direct, ValueFlags::empty()];
    let definitions = vec![SymbolId::new(0), SymbolId::new(1), SymbolId::new(2)];
    let thunk_symbols = vec![SymbolId::new(2)];
    let layout = finalise_layout(
        &file,
        &SectionContext {
            sections: &sections,
            sframe: None,
            frame_data_base: 0,
        },
        &vec![None, None],
        parts(),
        &flags,
        &definitions,
        Some(OwnedThunks {
            part_id,
            thunk_size: 12,
            symbols: &thunk_symbols,
        }),
        &mut offsets,
        &mut None,
    )
    .unwrap();
    let addresses: Vec<Option<u64>> = layout
        .sections
        .section_resolutions
        .iter()
        .map(|resolution| resolution.address())
        .collect();
    assert_eq!(addresses, vec![Some(0x2000), None, Some(0x2010)]);
    assert_eq!(layout.resolutions[0].unwrap().raw_value, 0x2014);
    // Nothing needs the other symbol.
    assert!(layout.resolutions[1].is_none());
    assert_eq!(layout.thunk_addresses, vec![(SymbolId::new(2), 0x2030)]);
    assert_eq!(offsets.get(part_id), 0x203c);

    offsets.set(part_id, u64::MAX);
    assert!(assign_thunk_addresses(&mut offsets, part_id, 12, &thunk_symbols).is_none());

    let unsorted = UnloadedSection {
        needs_sorting: false,
        sort_by_init_priority: false,
        sort_by_alignment: false,
    };
    assert!(!SectionSlot::Unloaded(unsorted).is_loaded());
}

#[test]
fn linker_symbols_mark_sections() {
    let (sections, part_id) = sections_for_testing();
    let id = part_id.output_section_id(&sections.platform);
    let mut layouts: OutputSectionMap<OutputRecordLayout> = sections.new_section_map();
    let record = OutputRecordLayout {
        file_size: 0x30,
        mem_size: 0x40,
        alignment: Alignment::one(),
        file_offset: 0x100,
        mem_offset: 0x5000,
        lma_offset: 0x5000,
    };
    layouts.set(id, record);
    let segments = ProgramSegments {
        defs: vec![ProgramSegmentDef {
            writable: false,
            executable: true,
            always_keep: false,
            loadable: true,
            stack: false,
            tls: false,
            order_key: 0,
        }],
    };
    let segment_layouts = vec![SegmentLayout {
        id: ProgramSegmentId::new(0),
        sizes: OutputRecordLayout {
            mem_offset: 0x4000,
            ..record
        },
    }];
    let ctx = InternalContext {
        sections: &sections,
        section_layouts: &layouts,
        segment_layouts: &segment_layouts,
        segments: &segments,
    };
    assert_eq!(
        internal_symbol_value(&ctx, SymbolPlacement::SectionStart(id)),
        Some(0x5000)
    );
    assert_eq!(
        internal_symbol_value(&ctx, SymbolPlacement::SectionEnd(id)),
        Some(0x5040)
    );
    assert_eq!(
        internal_symbol_value(&ctx, SymbolPlacement::SectionGroupEnd(id)),
        Some(0x5040)
    );
    assert_eq!(
        internal_symbol_value(&ctx, SymbolPlacement::LoadBaseAddress),
        Some(0x4000)
    );
    assert_eq!(
        internal_symbol_value(&ctx, SymbolPlacement::Undefined),
        Some(0)
    );
    let mut offsets: OutputSectionPartMap<u64> = sections.new_part_map();
    let direct = ValueFlags {
        direct: true,
        ..ValueFlags::empty()
    };
    let resolved = create_internal_symbol_resolution(
        &ctx,
        true,
        true,
        direct,
        SymbolPlacement::SectionEnd(id),
        &mut offsets,
        parts(),
    )
    .unwrap();
    assert_eq!(resolved.unwrap().raw_value, 0x5040);
    let unneeded = create_internal_symbol_resolution(
        &ctx,
        true,
        true,
        ValueFlags::empty(),
        SymbolPlacement::SectionEnd(id),
        &mut offsets,
        parts(),
    );
    assert_eq!(unneeded, Ok(None));

    let flags = vec![ValueFlags::empty(), direct];
    let definitions = vec![SymbolId::new(0), SymbolId::new(1)];
    let created = default_create_resolutions(
        &mut offsets,
        SymbolIdRange::input(SymbolId::new(0), 2),
        &flags,
        &definitions,
        parts(),
    )
    .unwrap();
    assert!(created[0].is_none() && created[1].is_some());
}

#[test]
fn secondary_sections_are_merged() {
    let (mut sections, part_id) = sections_for_testing();
    let primary = part_id.output_section_id(&sections.platform);
    let secondary =
        sections.add_secondary_section(primary, Alignment::address(), None, None, false);
    let mut layouts: OutputSectionMap<OutputRecordLayout> = sections.new_section_map();
    let record = OutputRecordLayout {
        file_size: 0x10,
        mem_size: 0x10,
        alignment: Alignment::one(),
        file_offset: 0x100,
        mem_offset: 0x5000,
        lma_offset: 0x5000,
    };
    layouts.set(primary, record);
    layouts.set(
        secondary,
        OutputRecordLayout {
            file_offset: 0x110,
            mem_offset: 0x5010,
            ..record
        },
    );
    let merged = merge_secondary_parts(&sections, &layouts).unwrap();
    assert_eq!(merged.get(primary).mem_size, 0x20);
    assert_eq!(merged.get(secondary).mem_size, 0);
    // A secondary section adds its size wherever it is.
    layouts.set(
        secondary,
        OutputRecordLayout {
            file_offset: 0xf0,
            mem_offset: 0x4ff0,
            ..record
        },
    );
    let merged = merge_secondary_parts(&sections, &layouts).unwrap();
    assert_eq!(merged.get(primary).mem_offset, 0x5000);
    assert_eq!(merged.get(primary).mem_size, 0x20);
    assert_eq!(sections.primary_output_section(secondary), primary);
}

#[test]
fn groups_know_where_their_names_start() {
    let (sections, _) = sections_for_testing();
    let strtab = TablePart {
        section_id: SinglePartSectionId::Strtab.output_section_id(),
        part_id: SinglePartSectionId::Strtab.part_id(),
    };
    let symtab = TablePart {
        section_id: SinglePartSectionId::SymtabGlobal.output_section_id(),
        part_id: SinglePartSectionId::SymtabGlobal.part_id(),
    };
    let tables = TableParts {
        strtab: Some(strtab),
        symtab_local: None,
        symtab_global: Some(symtab),
        symtab_shndx_local: None,
        symtab_shndx_global: None,
        gdb_index: None,
        dynstr: None,
    };
    let mut layouts: OutputSectionMap<OutputRecordLayout> = sections.new_section_map();
    for (table, start) in [(strtab, 0x8000), (symtab, 0x9000)] {
        layouts.get_mut(table.section_id).mem_offset = start;
    }
    let mut offsets: OutputSectionPartMap<u64> = sections.new_part_map();
    offsets.set(strtab.part_id, 0x8011);
    offsets.set(symtab.part_id, 0x9020);
    let mut sizes: OutputSectionPartMap<u64> = sections.new_part_map();
    sizes.set(strtab.part_id, 9);
    sizes.set(symtab.part_id, 16);
    let starts = finalise_group_tables(tables, &mut offsets, &sizes, &layouts, 16).unwrap();
    assert_eq!(starts.strtab_start_offset, 0x11);
    assert_eq!(starts.symtab_global_start_index, 2);
    assert_eq!(starts.symtab_local_start_index, 0);
    assert_eq!(offsets.get(strtab.part_id), 0x801a);
    assert_eq!(offsets.get(symtab.part_id), 0x9030);
    offsets.set(strtab.part_id, 0x7fff);
    assert_eq!(
        finalise_group_tables(tables, &mut offsets, &sizes, &layouts, 16).err(),
        Some(TableError::BeforeTable(strtab.section_id))
    );
    offsets.set(strtab.part_id, 0x2_0000_0000);
    assert_eq!(
        finalise_group_tables(tables, &mut offsets, &sizes, &layouts, 16).err(),
        Some(TableError::StringTableTooLarge)
    );
    assert_eq!(OutputSectionId(2), strtab.section_id);
}

#[test]
fn every_symbol_of_a_group_has_its_place() {
    let (sections, part_id) = sections_for_testing();
    let strtab = TablePart {
        section_id: SinglePartSectionId::Strtab.output_section_id(),
        part_id: SinglePartSectionId::Strtab.part_id(),
    };
    let mut layouts: OutputSectionMap<OutputRecordLayout> = sections.new_section_map();
    layouts.get_mut(strtab.section_id).mem_offset = 0x8000;
    let segments = ProgramSegments { defs: Vec::new() };
    let segment_layouts = Vec::new();
    let direct = ValueFlags {
        direct: true,
        ..ValueFlags::empty()
    };
    let flags = vec![direct; 8];
    let definitions: Vec<SymbolId> = (0..8).map(SymbolId::new).collect();
    let ctx = GroupContext {
        sections: SectionContext {
            sections: &sections,
            sframe: None,
            frame_data_base: 0,
        },
        internal: InternalContext {
            sections: &sections,
            section_layouts: &layouts,
            segment_layouts: &segment_layouts,
            segments: &segments,
        },
        parts: parts(),
        flags: &flags,
        definitions: &definitions,
        tables: TableParts {
            strtab: Some(strtab),
            symtab_local: None,
            symtab_global: None,
            symtab_shndx_local: None,
            symtab_shndx_global: None,
            gdb_index: None,
            dynstr: None,
        },
        entry_size: 16,
    };
    // The symbols 1 and 2 are those of the object.
    let group = one_group(part_id, &sections);
    let FileState::Object(file) = &group[0].files[0] else {
        panic!("not an object");
    };
    let merged_strings = vec![None, None];
    let internal = vec![InternalSymbol {
        has_name: true,
        placement: SymbolPlacement::SectionStart(strtab.section_id),
    }];
    let mut sizes: OutputSectionPartMap<u64> = sections.new_part_map();
    sizes.set(strtab.part_id, 5);
    let groups = vec![GroupToPlace {
        files: vec![
            FileToPlace::Internal {
                symbol_id_range: SymbolIdRange::prelude(1),
                symbols: &internal,
            },
            FileToPlace::Object {
                object: file,
                merged_strings: &merged_strings,
                thunks: None,
            },
            FileToPlace::Library(SymbolIdRange::input(SymbolId::new(3), 1)),
            FileToPlace::NotLoaded(SymbolIdRange::input(SymbolId::new(4), 2)),
            FileToPlace::Epilogue,
        ],
        sizes,
        next_dynamic: None,
    }];
    let start = |strtab_start: u64| {
        let mut offsets: OutputSectionPartMap<u64> = sections.new_part_map();
        offsets.set(part_id, 0x1000);
        offsets.set(strtab.part_id, strtab_start);
        vec![offsets]
    };
    let placed = compute_symbols_and_layouts(&groups, &start(0x8010), &ctx)
        .ok()
        .unwrap();
    assert_eq!(placed[0].tables.strtab_start_offset, 0x10);
    let mut values = Vec::new();
    for file in &placed[0].files {
        let resolutions = match file {
            PlacedFile::Object(layout) => &layout.resolutions,
            PlacedFile::Symbols(resolutions) => resolutions,
        };
        values.extend(resolutions.iter().map(|r| r.map(|r| r.raw_value)));
    }
    assert_eq!(
        values,
        [Some(0x8000), Some(0x1018), Some(0x77), Some(0), None, None]
    );
    assert_eq!(
        compute_symbols_and_layouts(&groups, &start(0x7fff), &ctx).err(),
        Some(GroupError::Table(TableError::BeforeTable(strtab.section_id)))
    );
    let mut huge = start(0x8010);
    huge[0].set(part_id, u64::MAX);
    assert_eq!(
        compute_symbols_and_layouts(&groups, &huge, &ctx).err(),
        Some(GroupError::Resolution(ResolutionError::Overflow))
    );
}

#[test]
fn layout_takes_what_was_reserved() {
    let (sections, _) = sections_for_testing();
    let layouts: OutputSectionMap<OutputRecordLayout> = sections.new_section_map();
    let segments = ProgramSegments { defs: Vec::new() };
    let segment_layouts = Vec::new();
    let entry = ValueFlags {
        direct: true,
        dynamic: true,
        got: true,
        ..ValueFlags::empty()
    };
    let stub = ValueFlags { plt: true, ..entry };
    let flags = vec![ValueFlags::empty(), entry, stub, stub];
    // The last symbol is defined by the one before it.
    let definitions: Vec<SymbolId> = [0, 1, 2, 2].into_iter().map(SymbolId::new).collect();
    let ctx = GroupContext {
        sections: SectionContext {
            sections: &sections,
            sframe: None,
            frame_data_base: 0,
        },
        internal: InternalContext {
            sections: &sections,
            section_layouts: &layouts,
            segment_layouts: &segment_layouts,
            segments: &segments,
        },
        parts: parts(),
        flags: &flags,
        definitions: &definitions,
        tables: TableParts {
            strtab: None,
            symtab_local: None,
            symtab_global: None,
            symtab_shndx_local: None,
            symtab_shndx_global: None,
            gdb_index: None,
            dynstr: None,
        },
        entry_size: 16,
    };
    let first = SymbolIdRange::input(SymbolId::new(1), 2);
    let second = SymbolIdRange::input(SymbolId::new(3), 1);
    let mut sizes: OutputSectionPartMap<u64> = sections.new_part_map();
    finalise_group_sizes(
        &vec![FileState::Dynamic(first), FileState::StubLibrary(second)],
        &mut sizes,
        &definitions,
        &flags,
        parts(),
    )
    .unwrap();
    assert_eq!((sizes.get(parts().got), sizes.get(parts().plt)), (16, 12));
    let mut offsets: OutputSectionPartMap<u64> = sections.new_part_map();
    offsets.set(parts().got, 0x4000);
    offsets.set(parts().plt, 0x5000);
    let placed = finalise_group_layout(
        &vec![FileToPlace::Library(first), FileToPlace::Library(second)],
        &sizes,
        &ctx,
        &mut offsets,
        &mut None,
    );
    assert!(placed.is_ok());
    assert_eq!(offsets.get(parts().got), 0x4000 + sizes.get(parts().got));
    assert_eq!(offsets.get(parts().plt), 0x5000 + sizes.get(parts().plt));
}

#[test]
fn loaded_sections_fit_into_what_was_reserved() {
    let (sections, part_id) = sections_for_testing();
    let unloaded = SectionSlot::Unloaded(UnloadedSection {
        needs_sorting: false,
        sort_by_init_priority: false,
        sort_by_alignment: false,
    });
    let mut file = object(part_id, vec![unloaded, unloaded, unloaded], Vec::new());
    let mut common = CommonGroupState::new(&sections);
    for (index, size) in [(0, 5), (2, 12), (0, 5)] {
        let header = SectionHeaderInfo {
            size,
            raw_alignment: 4,
            attributes: MachOAttributes::new(0, None),
            alloc: true,
            writable: false,
            executable: true,
        };
        assert!(handle_section_load_request(
            &mut file,
            &mut common,
            index,
            header,
            false,
            None,
            &sections
        )
        .is_ok());
    }
    let mut offsets: OutputSectionPartMap<u64> = sections.new_part_map();
    offsets.set(part_id, 0x1000);
    compute_object_section_positions(&file.inputs, &mut offsets, &sections).unwrap();
    assert_eq!(common.mem_sizes.get(part_id), 20);
    assert_eq!(offsets.get(part_id), 0x1000 + 20);
}

#[test]
fn groups_write_their_resolutions() {
    let resolution = |raw_value: u64| {
        Some(Resolution {
            raw_value,
            dynamic_symbol_index: None,
            flags: ValueFlags::empty(),
            got_address: None,
            plt_address: None,
        })
    };
    let group = GroupLayout {
        files: vec![
            PlacedFile::Symbols(vec![None, resolution(0x10)]),
            PlacedFile::Symbols(vec![resolution(0x20)]),
        ],
        tables: TableStarts {
            strtab_start_offset: 0,
            dynstr_start_offset: 0,
            symtab_local_start_index: 0,
            symtab_global_start_index: 0,
        },
    };
    let mut all = Vec::with_capacity(6);
    {
        let mut writer = sharded_vec_writer::VecWriter::new(&mut all);
        let mut first = ResolutionWriter {
            resolutions_out: writer.take_shard(3),
        };
        let mut second = ResolutionWriter {
            resolutions_out: writer.take_shard(2),
        };
        // What does not fit is not written.
        assert_eq!(second.write_group(&group), Err(TooManyResolutions));
        assert_eq!(first.write_group(&group), Ok(()));
        assert_eq!(first.write(None), Err(TooManyResolutions));
        writer.return_shard(first.resolutions_out);
        writer.return_shard(second.resolutions_out);
    }
    let values: Vec<Option<u64>> = all
        .iter()
        .map(|resolution: &Option<Resolution>| resolution.map(|r| r.raw_value))
        .collect();
    assert_eq!(
        values,
        vec![None, Some(0x10), Some(0x20), None, Some(0x10)]
    );
}
