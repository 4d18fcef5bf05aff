use libwild::alignment::Alignment;
use libwild::expression::Expression;
use libwild::macho_sections::built_in_section_infos;
use libwild::macho_segments::platform_sections;
use libwild::output_kind::{OutputKind, RelocationModel};
use libwild::output_order::{OrderEvent, OutputOrder};
use libwild::output_section_id::{
    built_in_part_ids, file_header, CommonSinglePartSectionId, OutputSectionId, PartId,
    PlatformSections,
};
use libwild::output_section_part_map::OutputSectionPartMap;
use libwild::output_sections::{
    OutputSections, SectionAttributes, SectionIdentity, SectionKind, SectionOutputInfo,
};
use libwild::output_sections_update::NamedSection;
use libwild::program_segments::ProgramSegments;
use std::cell::RefCell;

const NUM_ALIGNMENTS: u32 = 17;

/// A platform with three sections that have a single part and four that have a part for each
/// alignment.
fn regular_platform() -> PlatformSections {
    PlatformSections {
        num_single_part_sections: 3,
        num_built_in_regular_sections: 4,
        text_section_id: Some(OutputSectionId(3)),
        data_section_id: Some(OutputSectionId(4)),
        bss_section_id: Some(OutputSectionId(5)),
        comment_section_id: Some(OutputSectionId(6)),
        note_gnu_build_id_section_id: None,
        relro_padding_section_id: None,
        identity_from_name: true,
        default_attributes: SectionAttributes::empty(),
    }
}

const TEXT: OutputSectionId = OutputSectionId(3);
const DATA: OutputSectionId = OutputSectionId(4);
const BSS: OutputSectionId = OutputSectionId(5);

fn info(name: &'static [u8]) -> SectionOutputInfo<'static> {
    SectionOutputInfo {
        kind: SectionKind::Primary(SectionIdentity::new(name, None)),
        section_attributes: SectionAttributes::empty(),
        min_alignment: Alignment::one(),
        location_info: None,
        secondary_order: None,
        region_name: None,
        fill: None,
        phdrs: &[],
        input_order: false,
    }
}

fn sections_with_base_address(base_address: u64) -> OutputSections<'static> {
    OutputSections::with_base_address(
        regular_platform(),
        vec![
            info(b"UNMAPPED"),
            info(b"FILE_HEADER"),
            info(b"STRTAB"),
            info(b".text"),
            info(b".data"),
            info(b".bss"),
            info(b".comment"),
        ],
        base_address,
        OutputKind::StaticExecutable(RelocationModel::Fixed),
    )
}

fn sections_for_testing() -> OutputSections<'static> {
    let mut sections = sections_with_base_address(0x1000);
    for name in [&b"ro"[..], b"exec", b"data", b"bss"] {
        sections.add_named_section(
            SectionIdentity::new(name, None),
            NamedSection {
                min_alignment: Alignment::one(),
                region_name: None,
                location_info: None,
                fill: None,
                phdrs: &[],
            },
        );
    }
    sections
}

/// All sections but the one that holds what is in no section.
fn order_for_testing(sections: &OutputSections<'static>) -> OutputOrder<'static> {
    let events = (1..sections.num_sections())
        .map(|id| OrderEvent::Section(OutputSectionId::from_usize(id)))
        .collect();
    OutputOrder {
        events,
        script_section_order: Vec::new(),
        num_location_counters: 0,
        has_custom_phdrs: false,
    }
}

fn same(a: &OutputSectionPartMap<u32>, b: &OutputSectionPartMap<u32>) -> bool {
    a.dense_len() == b.dense_len() && a.iter() == b.iter()
}

fn check_platform_part_ids(platform: PlatformSections, infos: Vec<SectionOutputInfo<'static>>) {
    let num_infos = infos.len();
    let output_sections = OutputSections::with_base_address(
        platform,
        infos,
        0,
        OutputKind::StaticExecutable(RelocationModel::Fixed),
    );
    let regular_part_base = platform.regular_part_base();
    let regular_section_base = platform.regular_section_base();

    for section_id in
        (0..platform.num_single_part_sections as usize).map(OutputSectionId::from_usize)
    {
        let part_id = platform.single_part_id(section_id).unwrap();
        assert_eq!(
            platform.single_part_output_section_id(part_id),
            Some(section_id)
        );
        assert_eq!(section_id.base_part_id(&platform), part_id);
        assert_eq!(part_id.output_section_id(&platform), section_id);
    }

    assert_eq!(platform.single_part_id(regular_section_base), None);
    assert_eq!(
        platform.single_part_output_section_id(regular_part_base),
        None
    );
    for offset in 0..platform.num_built_in_regular_sections as usize {
        let section_id = regular_section_base.offset(offset);
        for part_id in section_id.parts(&platform) {
            let alignment = output_sections.part_alignment(part_id);
            assert_eq!(part_id.output_section_id(&platform), section_id);
            assert_eq!(
                section_id.part_id_with_alignment(&platform, alignment),
                part_id
            );
        }
    }

    assert_eq!(num_infos, platform.num_built_in_sections() as usize);
}

fn check_all_platforms() {
    check_platform_part_ids(platform_sections(), built_in_section_infos());
    check_platform_part_ids(
        regular_platform(),
        (0..7).map(|_| info(b"section")).collect(),
    );
}

#[test]
fn part_id_test_platform_part_id_invariants() {
    check_all_platforms();
}

#[test]
fn layout_stack_elf_tests_test_platform_part_id_invariants() {
    check_all_platforms();
}

fn check_merge_parts() {
    let output_sections = sections_for_testing();
    let platform = output_sections.platform;
    let output_order = order_for_testing(&output_sections);
    let segments = ProgramSegments { defs: Vec::new() };

    let mut part_map: OutputSectionPartMap<u32> = output_sections.new_part_map();
    let ids: Vec<OutputSectionId> = (0..output_sections.num_sections())
        .map(OutputSectionId::from_usize)
        .collect();
    for section_id in &ids {
        if section_id.is_custom(&platform) {
            let _ =
                part_map.get_mut(section_id.part_id_with_alignment(&platform, Alignment::one()));
        }
    }

    let (expected_sum_of_sums, all_1) = part_map.output_order_map(
        &output_order,
        &output_sections,
        &segments,
        0,
        |count: u32, _, _, _| (count + 1, 1u32),
    );

    let mut num_sections_with_all_alignments = 0;
    let mut sum_of_sums = 0;
    for section_id in &ids {
        let unsupported_single_part =
            !section_id.is_regular(&platform) && platform.single_part_id(*section_id).is_none();
        let sum: u32 = if unsupported_single_part {
            0
        } else {
            all_1
                .values_in_range(section_id.part_id_range(&platform))
                .iter()
                .sum()
        };
        sum_of_sums += sum;
        if sum == NUM_ALIGNMENTS {
            num_sections_with_all_alignments += 1;
        }
        let expected = if *section_id == CommonSinglePartSectionId::Unmapped.output_section_id()
            || unsupported_single_part
        {
            0
        } else if section_id.is_custom(&platform) {
            1
        } else if section_id.is_regular(&platform) {
            NUM_ALIGNMENTS
        } else {
            1
        };
        assert_eq!(sum, expected, "Unexpected sum for section {section_id:?}");
    }
    assert_eq!(
        platform.num_built_in_regular_sections,
        num_sections_with_all_alignments
    );
    assert_eq!(sum_of_sums, expected_sum_of_sums);

    let mut headers_only: OutputSectionPartMap<u32> = output_sections.new_part_map();
    *headers_only.get_mut(CommonSinglePartSectionId::FileHeader.part_id()) += 42;
    let merged = |section_id: OutputSectionId| -> u32 {
        headers_only
            .values_in_range(section_id.part_id_range(&platform))
            .iter()
            .sum()
    };
    assert_eq!(merged(file_header()), 42);
    assert_eq!(merged(TEXT), 0);
    assert_eq!(merged(BSS), 0);
}

#[test]
fn layout_stack_elf_tests_test_merge_parts() {
    check_merge_parts();
}

#[test]
fn output_section_part_map_test_merge_parts() {
    check_merge_parts();
}

fn filled(value: u32) -> OutputSectionPartMap<u32> {
    let empty: OutputSectionPartMap<u32> = sections_for_testing().new_part_map();
    empty.map(|_, _| value)
}

fn check_mut_with_map() {
    let mut input1 = filled(1);
    let input2 = filled(2);
    let expected = filled(3);
    let _: OutputSectionPartMap<u32> = input1.mut_with_map(&input2, |a, b| (a + b, 0));
    assert!(same(&input1, &expected));
    assert!(!same(&input1, &input2));
}

#[test]
fn layout_stack_elf_tests_test_mut_with_map() {
    check_mut_with_map();
}

#[test]
fn output_section_part_map_test_mut_with_map() {
    check_mut_with_map();
}

fn check_merge() {
    let mut input1 = filled(1);
    let input2 = filled(2);
    let expected = filled(3);
    input1.merge(&input2);
    assert!(same(&input1, &expected));
}

#[test]
fn layout_stack_elf_tests_test_merge() {
    check_merge();
}

#[test]
fn output_section_part_map_test_merge() {
    check_merge();
}

fn check_output_order_map_consistent() {
    let output_sections = sections_for_testing();
    let platform = output_sections.platform;
    let output_order = order_for_testing(&output_sections);
    let segments = ProgramSegments { defs: Vec::new() };
    let mut part_map: OutputSectionPartMap<u32> = output_sections.new_part_map();
    let custom: Vec<OutputSectionId> = (0..output_sections.num_sections())
        .map(OutputSectionId::from_usize)
        .filter(|id| id.is_custom(&platform))
        .collect();
    for section_id in custom.into_iter().rev() {
        let _ = part_map.get_mut(section_id.part_id_with_alignment(&platform, Alignment::one()));
    }

    // All parts of built-in sections are there.
    let seen = RefCell::new(Vec::new());
    let _: OutputSectionPartMap<u32> = part_map.map(|part_id, _| {
        seen.borrow_mut().push(part_id);
        0
    });
    let missing: Vec<PartId> = built_in_part_ids(&platform)
        .into_iter()
        .filter(|id| !seen.borrow().contains(id))
        .collect();
    assert!(
        missing.is_empty(),
        "Built-in sections missing from output_order_map: {missing:?}"
    );

    let (ordering_a, _): (Vec<usize>, OutputSectionPartMap<u32>) = part_map.output_order_map(
        &output_order,
        &output_sections,
        &segments,
        Vec::new(),
        |mut ordering: Vec<usize>, part_id, _, _| {
            let section_id = part_id.output_section_id(&platform).as_usize();
            if ordering.last() != Some(&section_id) {
                ordering.push(section_id);
            }
            (ordering, 0)
        },
    );
    let ordering_b: Vec<usize> = output_order
        .events
        .iter()
        .filter_map(|event| {
            if let OrderEvent::Section(id) = event {
                Some(id.as_usize())
            } else {
                None
            }
        })
        .collect();
    assert_eq!(ordering_a, ordering_b);
}

#[test]
fn layout_stack_elf_tests_test_output_order_map_consistent() {
    check_output_order_map_consistent();
}

#[test]
fn output_section_part_map_test_output_order_map_consistent() {
    check_output_order_map_consistent();
}

fn check_output_order_map() {
    let output_sections = sections_for_testing();
    let platform = output_sections.platform;
    let output_order = order_for_testing(&output_sections);
    let segments = ProgramSegments { defs: Vec::new() };
    let mut part_map: OutputSectionPartMap<u32> = output_sections.new_part_map();

    let part_id1 = DATA.part_id_with_alignment(&platform, Alignment::address());
    *part_map.get_mut(part_id1) += 32;

    let part_id2 = DATA.part_id_with_alignment(&platform, Alignment::one());
    *part_map.get_mut(part_id2) += 5;

    let (_, _): ((), OutputSectionPartMap<u32>) = part_map.output_order_map(
        &output_order,
        &output_sections,
        &segments,
        (),
        |(), part_id, alignment, value| {
            if part_id == part_id1 {
                assert_eq!(alignment, Alignment::address());
                assert_eq!(value, 32);
            } else if part_id == part_id2 {
                assert_eq!(alignment, Alignment::one());
                assert_eq!(value, 5);
            } else {
                if part_id.output_section_id(&platform) == DATA {
                    assert!(
                        alignment.value() <= Alignment::address().value(),
                        "Unexpected alignment {}",
                        alignment.value()
                    );
                }
                assert_eq!(value, 0);
            }
            ((), 0)
        },
    );
}

#[test]
fn parts_follow_the_order_of_the_output() {
    let output_sections = sections_for_testing();
    let platform = output_sections.platform;
    let segments = ProgramSegments { defs: Vec::new() };
    let output_order = OutputOrder {
        events: vec![OrderEvent::Section(BSS), OrderEvent::Section(TEXT)],
        script_section_order: Vec::new(),
        num_location_counters: 0,
        has_custom_phdrs: false,
    };
    let mut part_map: OutputSectionPartMap<u32> = output_sections.new_part_map();
    let text_part = TEXT.part_id_with_alignment(&platform, Alignment::address());
    let bss_part = BSS.part_id_with_alignment(&platform, Alignment::one());
    *part_map.get_mut(text_part) += 16;
    *part_map.get_mut(bss_part) += 3;

    let list = part_map.parts_in_output_order(&output_order, &output_sections, &segments);
    let expected_ids: Vec<PartId> = [BSS, TEXT]
        .into_iter()
        .flat_map(|id| {
            part_map
                .in_range(id.part_id_range(&platform))
                .into_iter()
                .map(|(part_id, _)| part_id)
                .collect::<Vec<PartId>>()
        })
        .collect();
    let ids: Vec<PartId> = list.iter().map(|(part_id, _, _)| *part_id).collect();
    assert_eq!(ids, expected_ids);
    assert_eq!(list.len(), 2 * NUM_ALIGNMENTS as usize);
    // Nothing in `.bss` is aligned to more than a byte, and nothing in `.text` to more than an
    // address.
    assert_eq!(list[0].1, Alignment::one());
    assert_eq!(list[NUM_ALIGNMENTS as usize].1, Alignment::address());
    let in_use: Vec<(PartId, Alignment, u32)> =
        list.into_iter().filter(|entry| entry.2 != 0).collect();
    assert_eq!(
        in_use,
        vec![
            (bss_part, Alignment::one(), 3),
            (text_part, Alignment::address(), 16)
        ]
    );

    // Each part starts where the one before it ends.
    let (end, starts) = part_map.output_order_map(
        &output_order,
        &output_sections,
        &segments,
        0x100u32,
        |position: u32, _, alignment, size| {
            let start = alignment.align_up(u64::from(position)) as u32;
            (start + size, start)
        },
    );
    assert_eq!(starts.get(bss_part), 0x100);
    assert_eq!(starts.get(text_part), 0x108);
    assert_eq!(end, 0x118);
}

#[test]
fn last_entry_of_a_part_decides() {
    let output_sections = sections_for_testing();
    let platform = output_sections.platform;
    let segments = ProgramSegments { defs: Vec::new() };
    let output_order = OutputOrder {
        events: vec![OrderEvent::Section(BSS), OrderEvent::Section(BSS)],
        script_section_order: Vec::new(),
        num_location_counters: 0,
        has_custom_phdrs: false,
    };
    let part_map: OutputSectionPartMap<u32> = output_sections.new_part_map();
    let (count, numbers) = part_map.output_order_map(
        &output_order,
        &output_sections,
        &segments,
        0u32,
        |count: u32, _, _, _| (count + 1, count),
    );
    assert_eq!(count, 2 * NUM_ALIGNMENTS);
    assert_eq!(
        numbers.get(BSS.part_id_with_alignment(&platform, Alignment::one())),
        2 * NUM_ALIGNMENTS - 1
    );
    assert_eq!(
        numbers.get(TEXT.part_id_with_alignment(&platform, Alignment::one())),
        0
    );
}

#[test]
fn layout_stack_elf_tests_test_output_order_map() {
    check_output_order_map();
}

#[test]
fn output_section_part_map_test_output_order_map() {
    check_output_order_map();
}

fn check_max_alignment() {
    let output_sections = sections_for_testing();
    let platform = output_sections.platform;
    let mut part_map: OutputSectionPartMap<u32> = output_sections.new_part_map();

    assert_eq!(
        part_map.max_alignment(DATA, &output_sections),
        Alignment::one()
    );

    *part_map.get_mut(DATA.part_id_with_alignment(&platform, Alignment::address())) += 32;
    *part_map.get_mut(DATA.part_id_with_alignment(&platform, Alignment::one())) += 5;

    assert_eq!(
        part_map.max_alignment(DATA, &output_sections),
        Alignment::address()
    );
}

#[test]
fn layout_stack_elf_tests_test_max_alignment() {
    check_max_alignment();
}

#[test]
fn output_section_part_map_test_max_alignment() {
    check_max_alignment();
}

#[test]
fn alignments_round_up_and_down() {
    let sixteen = Alignment::new(16).unwrap();
    assert_eq!(sixteen.exponent(), 4);
    assert_eq!(sixteen.align_up(0x1001), 0x1010);
    assert_eq!(sixteen.align_up(0x1000), 0x1000);
    assert_eq!(sixteen.align_down(0x100f), 0x1000);
    assert_eq!(sixteen.checked_align_up(u64::MAX), None);
    assert_eq!(sixteen.checked_align_modulo(0x1234, 0x2000), Some(0x2004));
    assert!(Alignment::new(3).is_none());
    assert!(Alignment::new(0).is_none());
    assert!(Alignment::new(1 << 17).is_none());
    assert_eq!(Alignment::new(1 << 16).unwrap().value(), 0x10000);
    assert_eq!(sixteen.max(Alignment::one()), sixteen);
    assert_eq!(sixteen.min(Alignment::one()), Alignment::one());
}

#[test]
fn parts_of_custom_sections_are_sparse() {
    let sections = sections_for_testing();
    let platform = sections.platform;
    let mut map: OutputSectionPartMap<u64> = sections.new_part_map();
    let custom = OutputSectionId(8);
    assert!(custom.is_custom(&platform));
    let part = custom.part_id_with_alignment(&platform, Alignment::address());
    assert_eq!(map.get(part), 0);
    map.increment(part, 5);
    map.increment(part, 6);
    assert_eq!(map.get(part), 11);
    map.decrement(part, 1);
    assert_eq!(map.get(part), 10);
    assert_eq!(map.dense_len(), built_in_part_ids(&platform).len());
    assert_eq!(map.take(part), 10);
    assert_eq!(map.get(part), 0);

    let mut sizes: OutputSectionPartMap<u64> = sections.new_part_map();
    sizes.set(PartId(1), 7);
    map.set(PartId(1), 100);
    let starts = map.merge_and_return_start_offsets(&sizes);
    assert_eq!(starts.get(PartId(1)), 100);
    assert_eq!(map.get(PartId(1)), 107);
    assert!(matches!(sections.base_address, Expression::Number(0x1000)));
}

#[test]
fn buffers_are_handed_out_piece_by_piece() {
    let mut buffers: OutputSectionPartMap<Vec<u8>> =
        OutputSectionPartMap::of_parts(vec![vec![1, 2, 3, 4], vec![5, 6]]);
    *buffers.part_bytes(PartId(7)) = vec![8, 9];
    let mut sizes: OutputSectionPartMap<u64> = OutputSectionPartMap::with_dense_size(2);
    sizes.set(PartId(0), 3);
    sizes.set(PartId(7), 1);
    let mut first = buffers.take_mut(&sizes);
    assert_eq!(*first.part_bytes(PartId(0)), vec![1, 2, 3]);
    assert!(first.part_bytes(PartId(1)).is_empty());
    assert_eq!(*first.part_bytes(PartId(7)), vec![8]);
    sizes.set(PartId(0), 1);
    sizes.set(PartId(1), 2);
    let mut second = buffers.take_mut(&sizes);
    assert_eq!(*second.part_bytes(PartId(0)), vec![4]);
    assert_eq!(*second.part_bytes(PartId(1)), vec![5, 6]);
    assert_eq!(*second.part_bytes(PartId(7)), vec![9]);
    assert!(buffers.part_bytes(PartId(0)).is_empty());
}
