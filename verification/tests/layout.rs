use libwild::alignment::Alignment;
use libwild::compute_layout::{compute_layout_sections, validate_all_non_empty_sections_emitted};
use libwild::expression_eval::SymbolTable;
use libwild::input_order::{packed_span, InputOrderSizes};
use libwild::layout_state::{LayoutArgs, LayoutContext};
use libwild::macho_attributes::SegmentName;
use libwild::macho_order::output_order;
use libwild::macho_sections::{
    built_in_section_infos, properties, section_attributes, section_identity,
};
use libwild::macho_segments::platform_sections;
use libwild::memory_regions::MemoryRegions;
use libwild::output_kind::{OutputKind, RelocationModel};
use libwild::output_order::OrderEvent;
use libwild::output_section_id::{file_header, OutputSectionId, PartId};
use libwild::output_section_part_map::OutputSectionPartMap;
use libwild::output_sections::{CustomSectionDetails, OutputSections};
use libwild::program_segments::ProgramSegmentId;
use libwild::record_layout::OutputRecordLayout;
use libwild::segment_layout::{compute_segment_layout, HeaderInfo, SegmentArgs};
use libwild::stable_order::stable_order;

fn built_in_sections(base_address: u64) -> OutputSections<'static> {
    OutputSections::with_base_address(
        platform_sections(),
        built_in_section_infos(),
        base_address,
        OutputKind::StaticExecutable(RelocationModel::Fixed),
    )
}

fn sections_with_base_address(base_address: u64) -> OutputSections<'static> {
    let mut sections = built_in_sections(base_address);
    for (name, segment, flags) in [
        (&b"__text"[..], &b"__TEXT"[..], 0x8000_0400),
        (b"__const", b"__TEXT", 0),
        (b"__data", b"__DATA", 0),
        (b"__bss", b"__DATA", 1),
    ] {
        let (id, _) = sections.add_section(CustomSectionDetails {
            identity: section_identity(name, segment),
            index: 0,
            alignment: Alignment::address(),
            start_address: None,
        });
        sections.section_infos.get_mut(id).section_attributes =
            properties(&section_attributes(flags, segment));
    }
    sections
}

/// Lays out sections and segments. Returns how many segments are loaded.
fn check_no_disallowed_overlaps(mut output_sections: OutputSections<'static>) -> usize {
    let platform = output_sections.platform;
    let ordered = output_order(&output_sections, &Vec::new(), false);
    let sections_to_output: Vec<OutputSectionId> = ordered
        .order
        .events
        .iter()
        .filter_map(|event| {
            if let OrderEvent::Section(id) = event {
                Some(*id)
            } else {
                None
            }
        })
        .collect();

    // All but what is in no section, and the section that stands for a segment.
    assert_eq!(sections_to_output.len(), output_sections.num_sections() - 2);

    let mut empty: OutputSectionPartMap<u64> = output_sections.new_part_map();
    for id in &sections_to_output {
        if id.is_custom(&platform) {
            let _ = empty.get_mut(id.part_id_with_alignment(&platform, Alignment::address()));
        }
    }
    let section_part_sizes = empty.map(|part_id, _| {
        if sections_to_output.contains(&part_id.output_section_id(&platform)) {
            7u64
        } else {
            0
        }
    });

    let symbols = SymbolTable::new();
    let input_order = InputOrderSizes::new();
    let region_order = Vec::new();
    let layouts = match compute_layout_sections(
        &LayoutContext {
            sizes: &section_part_sizes,
            sections: &output_sections,
            segments: &ordered.program_segments,
            order: &ordered.order,
            region_order: &region_order,
            symbols: &symbols,
            sizeof_headers: 0,
            input_order: &input_order,
            args: LayoutArgs {
                loadable_segment_alignment: Alignment::new(0x4000).unwrap(),
                should_output_partial_object: false,
                check_output_order: true,
            },
        },
        MemoryRegions::new(),
    ) {
        Ok(layouts) => layouts,
        Err(error) => panic!("{error:?}"),
    };
    assert!(validate_all_non_empty_sections_emitted(
        &section_part_sizes,
        &output_sections,
        &ordered.order,
        &ordered.program_segments,
    )
    .is_ok());

    // Sections do not overlap.
    let mut last_file_end = 0;
    let mut last_mem_end = 0;
    let mut last_section_id = file_header();
    for section_id in &sections_to_output {
        let section: &OutputRecordLayout = layouts.section_layouts.get(*section_id);
        let mem_end = section.mem_offset + section.mem_size;
        assert!(
            section.mem_offset >= last_mem_end,
            "Memory sections: {last_section_id:?} ..{last_mem_end:x} overlaps {section_id:?}",
        );
        let file_end = section.file_offset + section.file_size;
        assert!(
            section.file_offset >= last_file_end,
            "File sections {last_section_id:?} ..{last_file_end:x} overlaps {section_id:?}",
        );
        last_mem_end = mem_end;
        last_file_end = file_end;
        last_section_id = *section_id;
    }

    let header_info = HeaderInfo {
        num_output_sections_with_content: 0,
        active_segment_ids: (0..ordered.program_segments.len())
            .map(ProgramSegmentId::new)
            .collect(),
    };
    output_sections.output_section_indexes = (0..output_sections.num_sections())
        .map(|id| Some(id as u32))
        .collect();
    let segment_layouts = match compute_segment_layout(
        &layouts.section_layouts,
        &output_sections,
        &ordered.order,
        &ordered.program_segments,
        &header_info,
        SegmentArgs {
            should_output_partial_object: false,
            stack_size_override: None,
        },
    ) {
        Ok(segment_layouts) => segment_layouts,
        Err(error) => panic!("{error:?}"),
    };

    // Loadable segments overlap neither in memory nor in the file.
    let mut last_file = 0;
    let mut last_mem = 0;
    let mut num_segments = 0;
    for seg_layout in &segment_layouts.segments {
        if !ordered.program_segments.is_load_segment(seg_layout.id) {
            continue;
        }
        num_segments += 1;
        assert!(
            seg_layout.sizes.mem_offset >= last_mem,
            "Overlapping memory segment: {} < {}",
            last_mem,
            seg_layout.sizes.mem_offset,
        );
        assert!(
            seg_layout.sizes.file_offset >= last_file,
            "Overlapping file segment {} < {}",
            last_file,
            seg_layout.sizes.file_offset,
        );
        last_mem = seg_layout.sizes.mem_offset + seg_layout.sizes.mem_size;
        last_file = seg_layout.sizes.file_offset + seg_layout.sizes.file_size;
    }
    assert!(num_segments > 0);
    num_segments
}

#[test]
fn mod_test_no_disallowed_overlaps() {
    check_no_disallowed_overlaps(sections_with_base_address(0x1000));
}

#[test]
fn layout_stack_elf_tests_test_no_disallowed_overlaps() {
    check_no_disallowed_overlaps(sections_with_base_address(0x1000));
}

#[test]
fn there_are_no_segments_without_sections() {
    let sections = built_in_sections(0x1000);
    let ordered = output_order(&sections, &Vec::new(), false);
    assert!(!ordered
        .segments
        .iter()
        .any(|def| def.name.is(SegmentName::data())));
    let count = check_no_disallowed_overlaps(sections);
    assert_eq!(count, ordered.segments.len());
    let count_with_data = check_no_disallowed_overlaps(sections_with_base_address(0x1000));
    assert_eq!(count_with_data, count + 1);
}

#[test]
fn records_merge() {
    let mut record = OutputRecordLayout {
        file_size: 0x10,
        mem_size: 0x10,
        alignment: Alignment::address(),
        file_offset: 0x100,
        mem_offset: 0x1000,
        lma_offset: 0x1000,
    };
    assert_eq!(record.file_end(), 0x110);
    assert_eq!(record.mem_end(), 0x1010);
    record.merge(&OutputRecordLayout {
        file_size: 8,
        mem_size: 0x20,
        alignment: Alignment::new(32).unwrap(),
        file_offset: 0x120,
        mem_offset: 0x1020,
        lma_offset: 0x1020,
    });
    assert_eq!(record.file_offset, 0x100);
    assert_eq!(record.mem_offset, 0x1000);
    assert_eq!(record.alignment.value(), 32);
}

#[test]
fn packed_inputs_are_aligned_one_after_the_other() {
    let inputs = vec![
        (Alignment::one(), 3),
        (Alignment::address(), 8),
        (Alignment::new(2).unwrap(), 1),
    ];
    // 0..3, 8..16, 16..17
    assert_eq!(packed_span(0, &inputs), Some(17));
    assert_eq!(packed_span(u64::MAX - 1, &inputs), None);
    let mut sizes = InputOrderSizes::new();
    sizes.add(PartId(5), inputs);
    assert_eq!(sizes.span_of(PartId(5), 0), Some(Some(17)));
    assert_eq!(sizes.span_of(PartId(6), 0), None);
}

#[test]
fn sorting_is_stable() {
    let keys = vec![(2, 0), (1, 5), (2, 0), (1, 4)];
    assert_eq!(stable_order(&keys), vec![3, 1, 0, 2]);
}
