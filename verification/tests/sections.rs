use libwild::alignment::Alignment;
use libwild::expression::Expression;
use libwild::macho_attributes::SegmentName;
use libwild::macho_imports::get_segment_sections;
use libwild::macho_order::output_order;
use libwild::macho_sections::{built_in_section_infos, section_attributes};
use libwild::macho_segments::{platform_sections, SinglePartSectionId};
use libwild::macho_writer::is_tlv_template_referent;
use libwild::output_kind::{OutputKind, RelocationModel};
use libwild::output_section_id::PartId;
use libwild::output_section_map::OutputSectionMap;
use libwild::output_sections::{
    CustomSectionDetails, OutputSections, SectionIdentity, SectionKind,
};
use libwild::program_segments::ProgramSegmentId;
use libwild::record_layout::OutputRecordLayout;
use libwild::resolution::SectionResolution;
use libwild::section_rules::{SectionNameMatcher, SectionRule, SectionRuleOutcome};

fn sections() -> OutputSections<'static> {
    OutputSections::with_base_address(
        platform_sections(),
        built_in_section_infos(),
        0x1000,
        OutputKind::StaticExecutable(RelocationModel::Fixed),
    )
}

fn details(name: &'static [u8], index: usize) -> CustomSectionDetails<'static> {
    CustomSectionDetails {
        identity: SectionIdentity::new(name, None),
        index,
        alignment: Alignment::new(4).unwrap(),
        start_address: None,
    }
}

#[test]
fn custom_sections_are_added_once() {
    let mut sections = sections();
    let before = sections.num_sections();
    let mut part_ids = vec![PartId(0); 3];
    sections.add_sections(
        &vec![details(b"a", 2), details(b"b", 0), details(b"a", 1)],
        &mut part_ids,
    );
    assert_eq!(sections.num_sections(), before + 2);
    assert_eq!(part_ids[1], part_ids[2]);
    assert_ne!(part_ids[0], part_ids[1]);
    assert_eq!(
        sections.custom_identity_to_id(&SectionIdentity::new(b"a", None)),
        Some(part_ids[1].output_section_id(&sections.platform))
    );
    assert_eq!(
        sections.custom_identity_to_id(&SectionIdentity::new(b"b", None)),
        Some(part_ids[0].output_section_id(&sections.platform))
    );
    // Sections of the same name can be in different segments.
    assert_eq!(sections.section_id_by_name(b"a"), None);
}

#[test]
fn priorities_have_sections_of_their_own() {
    let mut sections = sections();
    let (primary, _) = sections.add_section(details(b"init", 0));
    let four = Alignment::new(4).unwrap();
    let eight = Alignment::new(8).unwrap();
    let first = sections.get_or_create_init_fini_secondary(primary, 100, eight);
    let second = sections.get_or_create_init_fini_secondary(primary, 200, four);
    assert_ne!(first, second);
    assert_eq!(
        sections.get_or_create_init_fini_secondary(primary, 100, four),
        first
    );
    let info = sections.output_info(first);
    assert_eq!(info.min_alignment, eight);
    assert!(matches!(info.kind, SectionKind::Secondary(id) if id == primary));
    assert_eq!(sections.primary_output_section(second), primary);
}

#[test]
fn settings_are_remembered() {
    let mut sections = sections();
    let (id, _) = sections.add_section(details(b"x", 0));
    assert!(!sections.uses_input_order(id));
    sections.set_input_order(id, true);
    assert!(sections.uses_input_order(id));
    sections.bump_min_alignment(id, Alignment::new(64).unwrap());
    sections.bump_min_alignment(id, Alignment::new(2).unwrap());
    assert_eq!(sections.output_info(id).min_alignment.value(), 64);
    sections.set_rosegment(true);
    assert!(sections.rosegment);
    sections.set_base_address(Expression::Number(0x7000));
    assert!(matches!(sections.base_address, Expression::Number(0x7000)));
    // The platform has no sections of these names.
    sections.apply_section_start_overrides(Some(1), Some(2), Some(3));
    assert!(sections.output_info(id).location_info.is_none());
    sections.override_section_start(Some(id), Some(0x9000));
    assert!(sections.output_info(id).location_info.is_some());
}

#[test]
fn segments_list_their_sections() {
    let mut sections = sections();
    let (text, _) = sections.add_section(CustomSectionDetails {
        identity: SectionIdentity::new(b"__text", Some(SegmentName::text().into_bytes())),
        ..details(b"", 0)
    });
    sections.section_infos.get_mut(text).section_attributes.alloc = true;
    sections
        .section_infos
        .get_mut(text)
        .section_attributes
        .executable = true;
    let order = output_order(&sections, &Vec::new(), false);
    sections.output_section_indexes = (0..sections.num_sections())
        .map(|index| Some(index as u32).filter(|_| index == text.as_usize()))
        .collect();
    let mut layouts: OutputSectionMap<OutputRecordLayout> = sections.new_section_map();
    layouts.get_mut(text).mem_size = 0x40;
    layouts.get_mut(text).file_size = 0x40;
    let holding: Vec<usize> = (0..order.segments.len())
        .filter(|&index| {
            get_segment_sections(
                &order.order.events,
                &sections,
                &layouts,
                ProgramSegmentId::new(index),
                order.segments[index],
            )
            .iter()
            .any(|section| section.id == text)
        })
        .collect();
    assert_eq!(holding.len(), 1);
}

#[test]
fn only_thread_local_sections_hold_templates() {
    let mut sections = sections();
    let (data, _) = sections.add_section(details(b"__thread_data", 0));
    assert!(!is_tlv_template_referent(&sections, None));
    assert!(!is_tlv_template_referent(&sections, Some(data)));
    let flags = object::macho::S_THREAD_LOCAL_REGULAR.0 as u32;
    section_attributes(flags, b"__DATA").apply(&mut sections, data);
    assert!(is_tlv_template_referent(&sections, Some(data)));
}

#[test]
fn sections_stand_for_themselves() {
    let full = SectionResolution { address: 0x123 }.full_resolution().unwrap();
    assert_eq!(full.value_for_symbol_table(), 0x123);
    assert!(SectionResolution::none().full_resolution().is_none());

    let id = SinglePartSectionId::Got.output_section_id();
    let kept = SectionRule::exact_section_keep(b"name", id);
    assert_eq!(kept.name_matcher.prefix_bytes(), b"name");
    assert!(kept.name_matcher.matches_name(b"name"));
    assert!(!kept.name_matcher.matches_name(b"names"));
    assert!(matches!(
        kept.outcome,
        SectionRuleOutcome::Section(info) if info.must_keep && info.section_id == id
    ));
    let sorted = SectionRule::prefix_section_sort(b"name", id);
    assert!(matches!(sorted.name_matcher, SectionNameMatcher::Prefix(b"name")));
    assert!(sorted.name_matcher.matches_name(b"names"));
    assert!(matches!(sorted.outcome, SectionRuleOutcome::SortedSection(_)));
}
