use libwild::alignment::Alignment;
use libwild::dependency_file::{collect_dependencies, write_dependency_file, LoadedFile};
use libwild::glob_patterns::{check_pattern, match_pattern};
use libwild::hash_maps::IdMap;
use libwild::incremental_plan::{fallback_reasons, Fallback, PreviousLink};
use libwild::layout_queries::ReverseReloc;
use libwild::link_options::{
    common_page_size, should_copy_input_relocs, warn_unsupported, UnsupportedOption,
};
use libwild::link_steps::{
    any_forces_common, base_address, check_format, init_timing, script_output, version_action,
    LinkFacts, LinkState, LinkStep, LinkerOutput, OutputFormat, UnalignedImageBase,
    UnsupportedFormat, VersionMode,
};
use libwild::output_kind::{start_memory_address, OutputKind, OutputKindArgs, RelocationModel};
use libwild::output_section_id::OutputSectionId;
use libwild::output_sections::{OnlyIf, SectionAttributes};
use libwild::section_classes::{CustomSectionIds, OrphanClass};
use libwild::section_rules::{
    should_merge_sections, PatternKind, RuleOutputInfo, SectionRule, SectionRuleOutcome,
    SpecialSections,
};

fn facts() -> LinkFacts {
    LinkFacts {
        plugin_initialised: false,
        plugin_generated: false,
        rust_version_script: false,
        incremental: false,
        dependency_file: true,
        trace_file: true,
    }
}

fn run(facts: LinkFacts, fails: &[LinkStep]) -> (Vec<LinkStep>, Option<LinkStep>) {
    let mut state = LinkState::new();
    let mut steps = Vec::new();
    while state.step != LinkStep::Finished {
        steps.push(state.step);
        state = state.next(!fails.contains(&state.step), facts);
        assert!(steps.len() < 100);
    }
    (steps, state.failed)
}

#[test]
fn links_end() {
    let (steps, failed) = run(facts(), &[]);
    assert_eq!(failed, None);
    let position = |wanted: LinkStep| steps.iter().position(|step| *step == wanted);
    assert!(position(LinkStep::LoadInputs) < position(LinkStep::ComputeLayout));
    assert!(position(LinkStep::ComputeLayout) < position(LinkStep::WriteOutput));
    assert!(position(LinkStep::WriteOutput) < position(LinkStep::VerifyInputs));
    assert!(position(LinkStep::VerifyInputs) < position(LinkStep::WriteDependencyFile));
    assert!(!steps.contains(&LinkStep::PluginCodegen));
    let (steps, _) = run(
        LinkFacts {
            dependency_file: false,
            trace_file: false,
            ..facts()
        },
        &[],
    );
    assert!(!steps.contains(&LinkStep::WriteDependencyFile));
    assert!(!steps.contains(&LinkStep::WriteTrace));
}

#[test]
fn changed_inputs_are_reported_first() {
    let (steps, failed) = run(facts(), &[LinkStep::ResolveSymbols]);
    assert_eq!(failed, Some(LinkStep::ResolveSymbols));
    assert_eq!(steps.last(), Some(&LinkStep::VerifyInputs));
    assert!(!steps.contains(&LinkStep::WriteOutput));
    // If inputs have changed during the link, that is the cause.
    let (_, failed) = run(facts(), &[LinkStep::ResolveSymbols, LinkStep::VerifyInputs]);
    assert_eq!(failed, Some(LinkStep::VerifyInputs));
    // Inputs are saved even if they could not be loaded.
    let (steps, failed) = run(facts(), &[LinkStep::LoadInputs]);
    assert!(steps.contains(&LinkStep::SaveInputs));
    assert_eq!(failed, Some(LinkStep::LoadInputs));
}

#[test]
fn dependencies_are_listed_once() {
    let file = |path: &'static [u8], temporary: bool| LoadedFile { path, temporary };
    let files = vec![
        file(b"a.o", false),
        file(b"/tmp/lto.o", true),
        file(b"libb.a", false),
        file(b"a.o", false),
    ];
    assert_eq!(
        collect_dependencies(&files),
        vec![&b"a.o"[..], &b"libb.a"[..]]
    );
    assert_eq!(
        write_dependency_file(b"out", &files),
        b"out: a.o libb.a\n\na.o:\n\nlibb.a:\n".to_vec()
    );
    assert_eq!(write_dependency_file(b"out", &Vec::new()), b"out:\n".to_vec());
}

#[test]
fn patterns_match_names() {
    assert!(check_pattern(b"*.o"));
    assert!(!check_pattern(b"[a"));
    assert!(!check_pattern(b"\xff*"));
    assert!(match_pattern(b"*crt?.o", b"/lib/crt1.o"));
    assert!(!match_pattern(b"*crt?.o", b"/lib/crt10.o"));
    assert!(!match_pattern(b"[a", b"a"));
}

#[test]
fn rules_match_sections() {
    let outcome = SectionRuleOutcome::Discard;
    let exact = SectionRule::exact(b".comment", outcome);
    assert!(exact.matches(b".comment", None));
    assert!(!exact.matches(b".comment2", None));
    let prefix = SectionRule::prefix_section(b".text.", OutputSectionId(4));
    assert!(prefix.matches(b".text.main", None));
    assert!(!prefix.matches(b".data.main", None));
    let glob = SectionRule::new(
        b".init_array.*",
        PatternKind::Wildcards,
        Some(b"*crt*.o"),
        outcome,
    )
    .unwrap_or_else(|_| panic!("valid pattern"));
    assert!(glob.matches(b".init_array.5", Some(b"/lib/crt1.o")));
    assert!(!glob.matches(b".init_array.5", Some(b"/lib/main.o")));
    assert!(!glob.matches(b".init_array.5", None));
    let excluded = glob
        .with_excludes(&vec![&b"*crt1*"[..]])
        .unwrap_or_else(|_| panic!("valid pattern"));
    assert!(!excluded.matches(b".init_array.5", Some(b"/lib/crt1.o")));
    assert!(excluded.matches(b".init_array.5", Some(b"/lib/crti.o")));
    assert!(
        SectionRule::new(b"[a", PatternKind::Wildcards, None, outcome).is_err()
            || SectionRule::new(b"x", PatternKind::Exact, Some(b"[a"), outcome).is_err()
    );

    let writable = IdMap::new();
    let read_only = SectionRule::exact_section(b".data", OutputSectionId(5))
        .with_only_if(Some(OnlyIf::Ro), OutputSectionId(5));
    assert!(read_only.allows_only_if(&writable));
    let mut writable = IdMap::new();
    writable.insert(5, 1);
    assert!(!read_only.allows_only_if(&writable));
}

#[test]
fn rules_lead_to_special_sections() {
    let special = SpecialSections {
        eh_frame: Some(OutputSectionId(7)),
        note_gnu_property: None,
        riscv_attributes: None,
    };
    let info = RuleOutputInfo::keep(OutputSectionId(7));
    assert!(info.must_keep && !RuleOutputInfo::regular(OutputSectionId(7)).must_keep);
    assert!(matches!(
        SectionRuleOutcome::section_rule_from_id(OutputSectionId(7), info, special),
        SectionRuleOutcome::EhFrame
    ));
    assert!(matches!(
        SectionRuleOutcome::section_rule_from_id(OutputSectionId(8), info, special),
        SectionRuleOutcome::Section(_)
    ));
    assert!(should_merge_sections(true, true, false));
    assert!(!should_merge_sections(true, false, false));
    assert!(!should_merge_sections(false, true, false));
    assert!(!should_merge_sections(true, true, true));
}

#[test]
fn orphans_have_classes() {
    let attributes = SectionAttributes {
        alloc: true,
        ..SectionAttributes::empty()
    };
    assert_eq!(CustomSectionIds::class_of(&SectionAttributes::empty()), OrphanClass::NonAlloc);
    assert_eq!(CustomSectionIds::class_of(&attributes), OrphanClass::Ro);
    assert_eq!(
        CustomSectionIds::class_of(&SectionAttributes {
            executable: true,
            ..attributes
        }),
        OrphanClass::Exec
    );
    assert_eq!(
        CustomSectionIds::class_of(&SectionAttributes {
            writable: true,
            no_bits: true,
            ..attributes
        }),
        OrphanClass::Bss
    );
    let mut ids = CustomSectionIds::new(true);
    ids.ro.push(OutputSectionId(9));
    assert_eq!(ids.take_class(OrphanClass::Ro), vec![OutputSectionId(9)]);
    assert!(ids.take_class(OrphanClass::Ro).is_empty());
}

#[test]
fn output_kinds_follow_arguments() {
    let args = OutputKindArgs {
        relocation_model: RelocationModel::Fixed,
        should_output_executable: true,
        should_output_partial_object: false,
        has_dynamic_linker: false,
    };
    let fixed = OutputKind::new(&args, false);
    assert_eq!(fixed, OutputKind::StaticExecutable(RelocationModel::Fixed));
    assert!(fixed.has_fixed_load_address() && fixed.is_executable());
    assert_eq!(start_memory_address(fixed, 0x400000), 0x400000);
    assert_eq!(start_memory_address(OutputKind::SharedObject, 0x400000), 0);
    assert!(OutputKind::SharedObject.needs_dynsym());
    let partial = OutputKind::new(
        &OutputKindArgs {
            should_output_executable: false,
            should_output_partial_object: true,
            ..args
        },
        false,
    );
    assert!(partial.is_partial_link());
    assert_eq!(
        OutputKind::new(&args, true),
        OutputKind::DynamicExecutable(RelocationModel::Fixed)
    );
}

#[test]
fn arguments_are_checked() {
    assert_eq!(base_address(None, 0x400000, 0x1000), Ok(0x400000));
    assert_eq!(base_address(Some(0x10000), 0x400000, 0x1000), Ok(0x10000));
    assert_eq!(
        base_address(Some(0x10001), 0x400000, 0x1000),
        Err(UnalignedImageBase(0x10001))
    );
    assert!(!version_action(VersionMode::ExitAfterPrint, true).link);
    assert!(version_action(VersionMode::NoVersion, false).link);
    assert!(!version_action(VersionMode::Verbose, false).link);
    assert!(version_action(VersionMode::VerboseWithEmulations, true).print_emulations);
    assert_eq!(
        check_format(OutputFormat::Coff, true, true),
        Err(UnsupportedFormat::Coff)
    );
    assert_eq!(
        check_format(OutputFormat::MachO, false, false),
        Err(UnsupportedFormat::MachOExperimental)
    );
    assert_eq!(check_format(OutputFormat::MachO, false, true), Ok(()));
    assert_eq!(check_format(OutputFormat::Elf, false, false), Ok(()));
    let setups = std::cell::Cell::new(0);
    let setup = || {
        setups.set(setups.get() + 1);
        Err::<(), &str>("no such directory")
    };
    assert_eq!(init_timing(false, true, setup), Ok(()));
    assert_eq!(init_timing(true, false, setup), Ok(()));
    assert_eq!(setups.get(), 0);
    assert_eq!(init_timing(true, true, setup), Err("no such directory"));
    assert_eq!(setups.get(), 1);
    assert_eq!(
        script_output(&vec![None, Some(&b"a"[..]), None]),
        Some(&b"a"[..])
    );
    assert!(any_forces_common(&vec![false, true]));
    assert!(!LinkerOutput::empty().has_layout());
    assert_eq!(warn_unsupported(b""), UnsupportedOption::Warn);
    assert_eq!(warn_unsupported(b"warn"), UnsupportedOption::Warn);
    assert_eq!(warn_unsupported(b"ignore"), UnsupportedOption::Ignore);
    assert_eq!(warn_unsupported(b"error"), UnsupportedOption::Fail);
    assert_eq!(warn_unsupported(b"x"), UnsupportedOption::UnknownChoice);
    assert_eq!(common_page_size(Alignment::new(0x4000).unwrap()), 0x1000);
    assert_eq!(common_page_size(Alignment::new(0x800).unwrap()), 0x800);
    assert!(should_copy_input_relocs(false, true) && !should_copy_input_relocs(false, false));
}

#[test]
fn plain_rules_ask_for_no_order() {
    let id = OutputSectionId(12);
    let plain = |must_keep: bool| RuleOutputInfo {
        section_id: id,
        must_keep,
        sorted: false,
        sort_by_init_priority: false,
        sort_by_alignment: false,
        input_order: false,
    };
    let outcome = |rule: SectionRule<'static>| rule.outcome;
    assert_eq!(
        outcome(SectionRule::exact_section(b".a", id)),
        SectionRuleOutcome::Section(plain(false))
    );
    assert_eq!(
        outcome(SectionRule::exact_section_keep(b".a", id)),
        SectionRuleOutcome::Section(plain(true))
    );
    assert_eq!(
        outcome(SectionRule::prefix_section(b".a", id)),
        SectionRuleOutcome::Section(plain(false))
    );
    assert_eq!(
        outcome(SectionRule::prefix_section_sort(b".a", id)),
        SectionRuleOutcome::SortedSection(plain(true))
    );
}

#[test]
fn reasons_to_link_from_scratch_are_recorded() {
    let texts = |reasons: Vec<Fallback<'static>>| {
        reasons
            .into_iter()
            .map(|reason| reason.text())
            .collect::<Vec<_>>()
    };
    assert!(fallback_reasons(None, false).is_empty());
    assert_eq!(
        texts(fallback_reasons(Some("plugin"), true)),
        vec!["plugin", "strict-order .init/.fini"]
    );
    assert_eq!(texts(fallback_reasons(Some("gc"), false)), vec!["gc"]);
    assert_eq!(
        texts(fallback_reasons(None, true)),
        vec!["strict-order .init/.fini"]
    );
}

#[test]
fn skipped_files_are_patched() {
    let reloc = ReverseReloc {
        definition_atom: 1,
        local_symbol: 2,
        file_offset: 3,
        place: 4,
        addend: 5,
        r_type: 6,
        owner_atom: 7,
    };
    let previous = || PreviousLink {
        resolutions: Some(vec![(1, vec![0x1000])]),
        reverse_relocs: Some(vec![reloc]),
    };
    let mut left = previous();
    assert!(left.take_patch_job(false).is_none());
    assert!(left.resolutions.is_some() && left.reverse_relocs.is_some());
    let job = left.take_patch_job(true).unwrap();
    assert_eq!(job.old_resolutions, vec![(1, vec![0x1000])]);
    assert_eq!(job.reverse_relocs, vec![reloc]);
    assert!(left.resolutions.is_none() && left.reverse_relocs.is_none());
    let mut partial = PreviousLink {
        reverse_relocs: None,
        ..previous()
    };
    assert!(partial.take_patch_job(true).is_none());
    assert!(partial.resolutions.is_none());
}
