use libwild::alignment::Alignment;
use libwild::file_id::FileId;
use libwild::group_activation::{
    activate_group, keep_section, Activation, ResolvedFile, StartStopSections, WorkerSlots,
};
use libwild::group_sizes::{finalise_group_sizes, finalise_symbol_sizes};
use libwild::groups::{
    CommonSymbol, FileState, ObjectState, ObjectSymbol, ScriptSortedSectionDetail, SymbolSection,
};
use libwild::input_sections::{InputSection, SectionSlot, UnloadedSection};
use libwild::macho_attributes::{MachOAttributes, SegmentName};
use libwild::macho_sections::built_in_section_infos;
use libwild::macho_segments::{platform_sections, SinglePartSectionId};
use libwild::output_kind::{OutputKind, RelocationModel};
use libwild::output_section_id::{OutputSectionId, PartId};
use libwild::output_section_map::OutputSectionMap;
use libwild::output_section_part_map::OutputSectionPartMap;
use libwild::output_sections::{CustomSectionDetails, OutputSections, SectionIdentity};
use libwild::reference_graph::{
    traverse_reference_graph, Reference, ReferenceGraph, SectionNode,
};
use libwild::resolution::{allocate_resolution, create_resolution, EntryParts};
use libwild::section_loading::{
    activate_section_gc, handle_section_load_request, CommonGroupState, LoadError, LoadOutcome,
    SectionGcUnit, SectionHeaderInfo,
};
use libwild::sorted_sections::{
    assign_addresses_to_sorted_sections, set_sorted_address, InputSortedSection,
};
use libwild::symbol_id::{SymbolId, SymbolIdRange};
use libwild::value_flags::{resolution_flags, RelocationKind, ValueFlags};
use libwild::work_queue::{
    load_object_symbol, GcLoadRequest, LoadSymbolError, LocalWorkQueue, WorkAction, WorkError,
    WorkItem,
};

fn sections_for_testing() -> (OutputSections<'static>, PartId) {
    let mut sections = OutputSections::with_base_address(
        platform_sections(),
        built_in_section_infos(),
        0x1000,
        OutputKind::StaticExecutable(RelocationModel::Fixed),
    );
    let (_, part_id) = sections.add_section(CustomSectionDetails {
        identity: SectionIdentity::new(b"__data", Some(SegmentName::data().into_bytes())),
        index: 0,
        alignment: Alignment::address(),
        start_address: None,
    });
    (sections, part_id)
}

fn unloaded(needs_sorting: bool) -> UnloadedSection {
    UnloadedSection {
        needs_sorting,
        sort_by_init_priority: false,
        sort_by_alignment: false,
    }
}

fn object(slots: Vec<SectionSlot>, part_id: PartId) -> ObjectState {
    ObjectState {
        file_id: FileId::new(1, 2),
        symbol_id_range: SymbolIdRange::input(SymbolId::new(1), 1),
        link_order: 0,
        inputs: slots
            .into_iter()
            .map(|slot| InputSection {
                slot,
                part_id,
                packed: false,
                executable: false,
            })
            .collect(),
        symbols: Vec::new(),
        relax_deltas: Vec::new(),
        script_sorted_sections: Vec::new(),
        post_gc_primary_bytes: 0,
    }
}

fn symbol() -> ObjectSymbol {
    ObjectSymbol {
        section: SymbolSection::InSection(3),
        offset_in_section: Some(0),
        value: 0,
        absolute: false,
        undefined: false,
        local: false,
        weak: false,
        hidden: false,
        common: None,
        mapping: false,
    }
}

fn reference(symbol: u32, kind: RelocationKind) -> Reference {
    Reference {
        symbol: SymbolId::new(symbol),
        needed: resolution_flags(kind),
    }
}

/// Section 0 refers to symbol 1 in section 1, which refers to symbol 2 in section 2. Section 3
/// refers to symbol 1, and nothing refers to it.
fn chain() -> ReferenceGraph {
    ReferenceGraph {
        nodes: vec![
            SectionNode::Loadable,
            SectionNode::Loadable,
            SectionNode::Leaf,
            SectionNode::Loadable,
        ],
        references: vec![
            vec![reference(1, RelocationKind::Absolute)],
            vec![
                reference(2, RelocationKind::Got),
                reference(1, RelocationKind::Relative),
            ],
            vec![reference(3, RelocationKind::Absolute)],
            vec![reference(1, RelocationKind::PltRelative)],
        ],
        symbol_sections: vec![vec![], vec![1], vec![2], vec![3]],
    }
}

#[test]
fn unreferenced_sections_are_left_out() {
    let traversal =
        traverse_reference_graph(&chain(), &vec![0], &Vec::new(), vec![ValueFlags::empty(); 4])
            .unwrap();
    assert_eq!(traversal.loaded, vec![true, true, true, false]);
    assert_eq!(traversal.requested, vec![false, true, true, false]);
    assert!(traversal.flags[1].direct && !traversal.flags[1].plt);
    assert!(traversal.flags[2].got && !traversal.flags[2].direct);
    // Relocations of leaves are not followed.
    assert_eq!(traversal.flags[3], ValueFlags::empty());
}

#[test]
fn symbols_can_be_needed_from_the_start() {
    let graph = chain();
    let traversal = traverse_reference_graph(
        &graph,
        &Vec::new(),
        &vec![SymbolId::new(3)],
        vec![ValueFlags::empty(); 4],
    )
    .unwrap();
    assert_eq!(traversal.loaded, vec![false, true, true, true]);
    let nothing = traverse_reference_graph(
        &graph,
        &Vec::new(),
        &Vec::new(),
        vec![ValueFlags::empty(); 4],
    )
    .unwrap();
    assert_eq!(nothing.loaded, vec![false; 4]);
}

#[test]
fn discarded_sections_cannot_be_referred_to() {
    let mut graph = chain();
    graph.nodes[2] = SectionNode::Discarded;
    let flags = vec![ValueFlags::empty(); 4];
    assert_eq!(
        traverse_reference_graph(&graph, &vec![0], &Vec::new(), flags).unwrap_err(),
        2
    );
    let mut graph = chain();
    graph.nodes[3] = SectionNode::Discarded;
    let flags = vec![ValueFlags::empty(); 4];
    assert!(traverse_reference_graph(&graph, &vec![0], &Vec::new(), flags).is_ok());
}

#[test]
fn work_stays_in_its_group() {
    let mut queue = LocalWorkQueue::new(1);
    let file_ids = vec![FileId::new(0, 0), FileId::new(1, 0), FileId::new(2, 0)];
    assert_eq!(queue.send_symbol_request(SymbolId::new(1), &file_ids), None);
    assert_eq!(
        queue.send_symbol_request(SymbolId::new(2), &file_ids),
        Some(WorkItem::LoadGlobalSymbol(SymbolId::new(2)))
    );
    assert_eq!(
        queue.send_copy_relocation_request(SymbolId::new(0), &file_ids),
        Some(WorkItem::CopyRelocateSymbol(SymbolId::new(0)))
    );
    assert_eq!(
        queue.send_gc_unit_request(FileId::new(1, 3), SectionGcUnit::new(4)),
        None
    );
    let mut slot = vec![WorkItem::ExportDynamic(SymbolId::new(1))];
    // What came last is done first.
    assert_eq!(
        queue.next_work(&mut slot),
        Some(WorkItem::LoadGcUnit(GcLoadRequest::new(
            FileId::new(1, 3),
            SectionGcUnit::new(4)
        )))
    );
    assert_eq!(
        queue.next_work(&mut slot),
        Some(WorkItem::LoadGlobalSymbol(SymbolId::new(1)))
    );
    assert_eq!(
        queue.next_work(&mut slot),
        Some(WorkItem::ExportDynamic(SymbolId::new(1)))
    );
    assert_eq!(queue.next_work(&mut slot), None);
    assert!(slot.is_empty());
}

#[test]
fn idle_groups_are_woken() {
    let mut slots = WorkerSlots::new(2);
    let mut queue = LocalWorkQueue::new(1);
    assert!(slots.finished_groups().is_empty());
    assert!(slots.take_work(&mut queue));
    assert_eq!(slots.finished_groups(), vec![1]);
    let work = WorkItem::LoadGlobalSymbol(SymbolId::new(7));
    assert!(slots.send_work(FileId::new(1, 0), work));
    assert!(!slots.send_work(FileId::new(1, 1), work));
    assert!(slots.finished_groups().is_empty());
    assert!(!slots.take_work(&mut queue));
    assert_eq!(queue.local_work, vec![work, work]);
    queue.local_work.clear();
    assert!(slots.take_work(&mut queue));
}

#[test]
fn files_decide_what_work_means() {
    let id = SymbolId::new(1);
    let unit = SectionGcUnit::new(0);
    let dynamic = FileState::Dynamic(SymbolIdRange::empty());
    let stub = FileState::StubLibrary(SymbolIdRange::empty());
    let synthetic = FileState::SyntheticSymbols(SymbolIdRange::empty());
    let load = WorkItem::LoadGlobalSymbol(id);
    assert_eq!(dynamic.do_work(load), Ok(WorkAction::UseDynamicSymbol(id)));
    assert_eq!(stub.do_work(load), Ok(WorkAction::ImportStubSymbol(id)));
    assert_eq!(synthetic.do_work(load), Ok(WorkAction::LoadMarkedSections(id)));
    assert_eq!(
        dynamic.do_work(WorkItem::CopyRelocateSymbol(id)),
        Ok(WorkAction::CopyRelocate(id))
    );
    assert_eq!(
        stub.do_work(WorkItem::CopyRelocateSymbol(id)),
        Err(WorkError::CopyFromNonDynamic(id))
    );
    assert_eq!(
        stub.do_work(WorkItem::LoadGcUnit(GcLoadRequest::new(
            FileId::new(0, 0),
            unit
        ))),
        Err(WorkError::UnitOfNonObject(unit))
    );
    assert_eq!(
        dynamic.do_work(WorkItem::ExportDynamic(id)),
        Ok(WorkAction::Nothing)
    );
    assert_eq!(dynamic.activation(), Activation::Dynamic);
    assert_eq!(stub.activation(), Activation::Nothing);
    assert!(!FileState::Epilogue.size_steps().symbols);
    assert!(stub.size_steps().symbols && !stub.size_steps().own);
}

#[test]
fn intermediate_code_is_not_laid_out() {
    let range = SymbolIdRange::input(SymbolId::new(3), 2);
    let (files, queue) = activate_group(
        vec![
            ResolvedFile::Dynamic(range),
            ResolvedFile::LtoInput(range),
            ResolvedFile::Prelude(range),
        ],
        4,
    );
    assert_eq!(queue.index, 4);
    assert!(matches!(files[0], FileState::Dynamic(_)));
    assert!(matches!(files[1], FileState::NotLoaded(r) if r == range));
    assert!(matches!(files[2], FileState::Prelude(_)));
    assert_eq!(files.len(), 3);
}

#[test]
fn marked_sections_are_handed_out_once() {
    let request = GcLoadRequest::new(FileId::new(1, 0), SectionGcUnit::new(2));
    let mut marked = StartStopSections {
        candidates: OutputSectionMap::from_values(vec![vec![], vec![request]]),
    };
    assert_eq!(marked.load_symbol(OutputSectionId(1)), vec![request]);
    assert!(marked.load_symbol(OutputSectionId(1)).is_empty());
    let mut kept = OutputSectionMap::from_values(vec![false, false]);
    keep_section(&mut kept, OutputSectionId(1));
    keep_section(&mut kept, OutputSectionId(1));
    assert!(!*kept.get(OutputSectionId(0)) && *kept.get(OutputSectionId(1)));
}

fn header(size: u64, raw_alignment: u64) -> SectionHeaderInfo {
    SectionHeaderInfo {
        size,
        raw_alignment,
        attributes: MachOAttributes::new(0, None),
        alloc: true,
        writable: true,
        executable: true,
    }
}

#[test]
fn sections_are_loaded_once() {
    let (sections, part_id) = sections_for_testing();
    let mut common = CommonGroupState::new(&sections);
    let mut file = object(
        vec![
            SectionSlot::Unloaded(unloaded(false)),
            SectionSlot::Discard,
            SectionSlot::MustLoad(unloaded(true)),
            SectionSlot::UnloadedDebugInfo,
            SectionSlot::MergeStrings,
        ],
        part_id,
    );
    let outcome =
        handle_section_load_request(
            &mut file,
            &mut common,
            0,
            header(13, 4),
            false,
            None,
            &sections,
        )
            .unwrap();
    let LoadOutcome::Loaded(loaded) = outcome else {
        panic!("not loaded");
    };
    assert_eq!(loaded.section.size, 13);
    assert_eq!(loaded.section.alignment.value(), 4);
    assert!(loaded.warn_writable_code && !loaded.sorted);
    // The size is rounded up to the alignment of the part.
    assert_eq!(common.mem_sizes.get(part_id), 16);
    assert_eq!(
        handle_section_load_request(
            &mut file,
            &mut common,
            0,
            header(13, 4),
            false,
            None,
            &sections,
        ),
        Ok(LoadOutcome::Nothing)
    );
    assert_eq!(common.mem_sizes.get(part_id), 16);
    assert_eq!(
        handle_section_load_request(
            &mut file,
            &mut common,
            1,
            header(13, 4),
            false,
            None,
            &sections,
        ),
        Err(LoadError::Discarded(1))
    );
    // Sorted sections are allocated later.
    let outcome =
        handle_section_load_request(
            &mut file,
            &mut common,
            2,
            header(8, 0),
            false,
            None,
            &sections,
        );
    assert!(matches!(outcome, Ok(LoadOutcome::Loaded(loaded)) if loaded.sorted));
    assert_eq!(common.mem_sizes.get(part_id), 16);
    assert_eq!(
        file.script_sorted_sections,
        vec![ScriptSortedSectionDetail {
            index: 2,
            sort_by_init_priority: false,
            sort_by_alignment: false,
        }]
    );
    assert!(matches!(
        handle_section_load_request(
            &mut file,
            &mut common,
            3,
            header(8, 1),
            false,
            None,
            &sections,
        ),
        Ok(LoadOutcome::LoadedDebugInfo(_))
    ));
    assert_eq!(common.mem_sizes.get(part_id), 24);
    assert_eq!(
        handle_section_load_request(
            &mut file,
            &mut common,
            4,
            header(8, 1),
            false,
            None,
            &sections,
        ),
        Ok(LoadOutcome::NotedAttributes)
    );

    let mut file = object(vec![SectionSlot::Unloaded(unloaded(false)); 2], part_id);
    assert_eq!(
        handle_section_load_request(
            &mut file,
            &mut common,
            0,
            header(8, 3),
            false,
            None,
            &sections,
        ),
        Err(LoadError::UnsupportedAlignment(3))
    );
    assert_eq!(
        handle_section_load_request(
            &mut file,
            &mut common,
            0,
            header(u64::MAX, 1),
            false,
            None,
            &sections
        ),
        Err(LoadError::Overflow)
    );
    let empty =
        handle_section_load_request(
            &mut file,
            &mut common,
            0,
            header(0, 1),
            true,
            None,
            &sections,
        );
    assert!(matches!(
        empty,
        Ok(LoadOutcome::Loaded(loaded)) if loaded.keep_section
            == Some(part_id.output_section_id(&sections.platform))
    ));
}

#[test]
fn what_is_loaded_where_thunks_go_is_counted() {
    let (sections, part_id) = sections_for_testing();
    let mut common = CommonGroupState::new(&sections);
    let mut file = object(vec![SectionSlot::Unloaded(unloaded(false)); 3], part_id);
    let mut load = |file: &mut ObjectState, index: usize, size: u64, part: Option<PartId>| {
        handle_section_load_request(
            file,
            &mut common,
            index,
            header(size, 4),
            false,
            part,
            &sections,
        )
    };
    load(&mut file, 0, 13, Some(part_id)).unwrap();
    assert_eq!(file.post_gc_primary_bytes, 13);
    load(&mut file, 1, 20, Some(PartId(part_id.0 + 1))).unwrap();
    assert_eq!(file.post_gc_primary_bytes, 13);
    load(&mut file, 2, 7, None).unwrap();
    assert_eq!(file.post_gc_primary_bytes, 13);
    assert!(file.script_sorted_sections.is_empty());
}

#[test]
fn garbage_collection_is_optional() {
    let file = object(
        vec![
            SectionSlot::Unloaded(unloaded(false)),
            SectionSlot::MustLoad(unloaded(false)),
            SectionSlot::FrameData(2),
            SectionSlot::MergeStrings,
            SectionSlot::NoteGnuProperty(4),
            SectionSlot::Discard,
        ],
        PartId(0),
    );
    let collected = activate_section_gc(&file, true);
    assert_eq!(
        collected.requests,
        vec![SectionGcUnit::new(1), SectionGcUnit::new(3)]
    );
    assert_eq!(collected.frame_sections.len(), 1);
    assert_eq!(collected.frame_sections.get(0), 2);
    assert_eq!(collected.note_gnu_property, Some(4));
    assert_eq!(collected.riscv_attributes, None);
    let all = activate_section_gc(&file, false);
    assert_eq!(all.requests.len(), 3);
}

#[test]
fn symbols_load_sections_or_space() {
    let (sections, part_id) = sections_for_testing();
    let mut common = CommonGroupState::new(&sections);
    let mut queue = LocalWorkQueue::new(1);
    let file = object(Vec::new(), part_id);
    load_object_symbol(&file, symbol(), true, true, &mut common, &mut queue).unwrap();
    assert_eq!(
        queue.local_work,
        vec![WorkItem::LoadGcUnit(GcLoadRequest::new(
            FileId::new(1, 2),
            SectionGcUnit::new(3)
        ))]
    );
    let common_symbol = ObjectSymbol {
        section: SymbolSection::NoSection,
        common: Some(CommonSymbol { size: 24, part_id }),
        ..symbol()
    };
    load_object_symbol(&file, common_symbol, true, true, &mut common, &mut queue).unwrap();
    assert_eq!(common.mem_sizes.get(part_id), 24);
    let huge = ObjectSymbol {
        common: Some(CommonSymbol {
            size: u64::MAX,
            part_id,
        }),
        ..common_symbol
    };
    assert_eq!(
        load_object_symbol(&file, huge, true, true, &mut common, &mut queue),
        Err(LoadSymbolError::Overflow)
    );
    let unreadable = ObjectSymbol {
        section: SymbolSection::Unreadable,
        ..symbol()
    };
    assert_eq!(
        load_object_symbol(&file, unreadable, true, true, &mut common, &mut queue),
        Err(LoadSymbolError::Unreadable)
    );
    // Whether the file holds the definition is checked only on request.
    assert_eq!(
        load_object_symbol(&file, symbol(), false, true, &mut common, &mut queue),
        Err(LoadSymbolError::NotTheDefinition)
    );
    assert_eq!(queue.local_work.len(), 1);
    load_object_symbol(&file, symbol(), false, false, &mut common, &mut queue).unwrap();
    assert_eq!(queue.local_work.len(), 2);
}

#[test]
fn reserved_entries_are_taken() {
    let (sections, _) = sections_for_testing();
    let parts = EntryParts {
        got: SinglePartSectionId::Got.part_id(),
        plt: SinglePartSectionId::PltGot.part_id(),
    };
    let stub = ValueFlags {
        dynamic: true,
        got: true,
        plt: true,
        ..ValueFlags::empty()
    };
    let entry = ValueFlags {
        dynamic: true,
        got: true,
        ..ValueFlags::empty()
    };
    let direct = ValueFlags {
        direct: true,
        ..ValueFlags::empty()
    };
    let flags = vec![ValueFlags::empty(), stub, entry, direct, stub];
    // The last symbol is defined by the first.
    let definitions = vec![
        SymbolId::new(0),
        SymbolId::new(1),
        SymbolId::new(2),
        SymbolId::new(3),
        SymbolId::new(1),
    ];
    let range = SymbolIdRange::input(SymbolId::new(1), 4);
    let mut sizes: OutputSectionPartMap<u64> = sections.new_part_map();
    finalise_symbol_sizes(&mut sizes, &definitions, &flags, range, parts);
    assert_eq!(sizes.get(parts.got), 16);
    assert_eq!(sizes.get(parts.plt), 12);

    let mut offsets: OutputSectionPartMap<u64> = sections.new_part_map();
    offsets.set(parts.got, 0x4000);
    offsets.set(parts.plt, 0x1000);
    for id in 1..4 {
        create_resolution(flags[id], 0x99, None, &mut offsets, parts).unwrap();
    }
    assert_eq!(offsets.get(parts.got), 0x4000 + 16);
    assert_eq!(offsets.get(parts.plt), 0x1000 + 12);

    let mut group: OutputSectionPartMap<u64> = sections.new_part_map();
    let files = vec![
        FileState::StubLibrary(range),
        FileState::NotLoaded(range),
        FileState::Dynamic(range),
    ];
    assert!(finalise_group_sizes(&files, &mut group, &definitions, &flags, parts).is_ok());
    assert_eq!(group.get(parts.got), 32);
    assert_eq!(group.get(parts.plt), 24);
    group.set(parts.got, u64::MAX - 10);
    assert!(finalise_group_sizes(&files, &mut group, &definitions, &flags, parts).is_err());

    let mut one: OutputSectionPartMap<u64> = sections.new_part_map();
    allocate_resolution(stub, &mut one, parts);
    assert_eq!((one.get(parts.got), one.get(parts.plt)), (8, 12));
}

#[test]
fn sorted_sections_follow_each_other() {
    let (sections, part_id) = sections_for_testing();
    let mut offsets: OutputSectionPartMap<u64> = sections.new_part_map();
    offsets.set(part_id, 0x1001);
    let section = |size: u64, alignment: u64| InputSortedSection {
        file_id: FileId::new(1, 2),
        section_index: 0,
        part_id,
        size,
        alignment: Alignment::new(alignment).unwrap(),
    };
    let sorted = vec![section(3, 4), section(8, 8), section(1, 1)];
    assert_eq!(
        assign_addresses_to_sorted_sections(&mut offsets, &sorted),
        Some(vec![0x1004, 0x1008, 0x1010])
    );
    assert_eq!(offsets.get(part_id), 0x1011);
    offsets.set(part_id, u64::MAX - 1);
    assert_eq!(
        assign_addresses_to_sorted_sections(&mut offsets, &sorted),
        None
    );

    let mut file = object(vec![SectionSlot::MustLoad(unloaded(true))], part_id);
    let mut common = CommonGroupState::new(&sections);
    handle_section_load_request(&mut file, &mut common, 0, header(3, 4), false, None, &sections)
        .unwrap();
    set_sorted_address(&mut file, 0, 0x1004);
    match file.inputs[0].slot {
        SectionSlot::Sorted(sorted) => {
            assert_eq!(sorted.address, 0x1004);
            assert_eq!(sorted.section.size, 3);
        }
        _ => panic!("not sorted"),
    }
}
