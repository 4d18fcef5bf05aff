use libwild::alignment::Alignment;
use libwild::expression::Expression;
use libwild::file_id::FileId;
use libwild::groups::{CommonSymbol, ObjectState, ObjectSymbol, SymbolSection};
use libwild::hash_maps::{IdMap, NameMap};
use libwild::input_sections::{InputSection, SectionSlot};
use libwild::internal_symbols::{
    load_expression_referenced_symbols, load_redirect_referenced_symbols,
    provide_has_missing_rhs, SymbolPlacement,
};
use libwild::output_kind::OutputKind;
use libwild::output_section_id::{OutputSectionId, PartId, PlatformSections};
use libwild::output_sections::{
    OutputSections, SectionAttributes, SectionIdentity, SectionKind, SectionOutputInfo,
};
use libwild::output_sections_update::NamedSection;
use libwild::section_loading::CommonGroupState;
use libwild::symbol_id::{SymbolId, SymbolIdRange};
use libwild::symbol_resolution::{
    apply_visibility, load_prelude, load_symbols_in_redirect, process_object, resolve_symbol,
    resolve_symbols, work_items_do, GroupKind, LocalSymbol, PendingFiles, PreludeSymbol,
    ResolutionState, ResolveStep, ResolvingFile, SymbolFiles, SymbolName, UndefinedSymbol,
    Visibility,
};
use libwild::symbol_rules::{
    allocate_object_symtab_space, can_export_symbol, check_for_undefined, export_dynamic,
    export_symbols_mode, finalise_object_sizes, is_default_strippable, load_non_hidden_symbols,
    should_emit_undefined_error, ExportArgs,
    ExportSymbolsMode, SymbolCopyInfo, SymbolNames, SymtabArgs, UndefinedArgs, UndefinedReport,
    UnresolvedSymbols,
};
use libwild::undefined_symbols::{canonicalise_undefined_symbols, References, SymbolTable};
use libwild::value_flags::{resolution_flags, RelocationKind, ValueFlags};

fn plain_symbol() -> ObjectSymbol {
    ObjectSymbol {
        section: SymbolSection::InSection(0),
        offset_in_section: Some(0),
        value: 0,
        absolute: false,
        undefined: false,
        local: false,
        weak: false,
        hidden: false,
        common: None,
        mapping: false,
    }
}

fn object(symbols: Vec<ObjectSymbol>, slots: Vec<SectionSlot>) -> ObjectState {
    ObjectState {
        file_id: FileId::new(1, 0),
        symbol_id_range: SymbolIdRange::input(SymbolId::new(1), symbols.len()),
        link_order: 0,
        inputs: slots
            .into_iter()
            .map(|slot| InputSection {
                slot,
                part_id: PartId(0),
                packed: false,
                executable: false,
            })
            .collect(),
        symbols,
        relax_deltas: Vec::new(),
        script_sorted_sections: Vec::new(),
        post_gc_primary_bytes: 0,
    }
}

fn sections_with_named(name: &'static [u8]) -> OutputSections<'static> {
    let info = |name: &'static [u8]| SectionOutputInfo {
        kind: SectionKind::Primary(SectionIdentity::new(name, None)),
        section_attributes: SectionAttributes::empty(),
        min_alignment: Alignment::one(),
        location_info: None,
        secondary_order: None,
        region_name: None,
        fill: None,
        phdrs: &[],
        input_order: false,
    };
    let mut sections = OutputSections::with_base_address(
        PlatformSections {
            num_single_part_sections: 2,
            num_built_in_regular_sections: 0,
            text_section_id: None,
            data_section_id: None,
            bss_section_id: None,
            comment_section_id: None,
            note_gnu_build_id_section_id: None,
            relro_padding_section_id: None,
            identity_from_name: true,
            default_attributes: SectionAttributes::empty(),
        },
        vec![info(b"UNMAPPED"), info(b"FILE_HEADER")],
        0,
        OutputKind::SharedObject,
    );
    sections.add_named_section(
        SectionIdentity::from_name(name),
        NamedSection {
            min_alignment: Alignment::one(),
            region_name: None,
            location_info: None,
            fill: None,
            phdrs: &[],
        },
    );
    sections
}

#[test]
fn file_ids_round_trip() {
    let id = FileId::new(0x1234, 0xab);
    assert_eq!(id.group(), 0x1234);
    assert_eq!(id.file(), 0xab);
    assert_eq!(FileId::from_encoded(id.as_u32()), id);
    assert_eq!(FileId::prelude().as_u32(), 0);
}

#[test]
fn symbol_ids_round_trip() {
    let range = SymbolIdRange::input(SymbolId::new(10), 5);
    assert_eq!(range.len(), 5);
    for offset in 0..5 {
        let id = range.offset_to_id(offset);
        assert!(range.contains(id));
        assert_eq!(range.id_to_offset(id), offset);
        assert_eq!(range.input_to_id(offset), id);
        assert_eq!(id.to_input(range), offset);
    }
    assert!(!range.contains(SymbolId::new(9)));
    assert!(!range.contains(SymbolId::new(15)));
    assert_eq!(range.ids().len(), 5);
    assert!(SymbolId::undefined().is_undefined());
    assert!(SymbolId::try_from_usize(usize::MAX).is_err());
    assert_eq!(SymbolId::try_from_usize(7).unwrap(), SymbolId::new(7));
    let both = SymbolIdRange::covering(range, SymbolIdRange::input(SymbolId::new(20), 2));
    assert_eq!(both.start(), SymbolId::new(10));
    assert_eq!(both.len(), 12);
}

#[test]
fn flags_accumulate() {
    let mut flags = ValueFlags::empty();
    assert!(!flags.has_resolution());
    let got = resolution_flags(RelocationKind::Got);
    assert!(got.got && !got.plt && !got.direct);
    let before = flags.fetch_or(got);
    assert_eq!(before, ValueFlags::empty());
    flags.merge(resolution_flags(RelocationKind::PltRelative));
    assert!(flags.got && flags.plt);
    assert!(flags.has_resolution());
    assert_eq!(
        resolution_flags(RelocationKind::TlsLd),
        ValueFlags::empty()
    );
    assert!(resolution_flags(RelocationKind::Absolute).direct);
    assert!(resolution_flags(RelocationKind::TlsGd).got_tls_module);
    assert!(resolution_flags(RelocationKind::GotTpOff).got_tls_offset);
    assert!(resolution_flags(RelocationKind::TlsDesc).got_tls_descriptor);
}

#[test]
fn strong_references_load_files() {
    let file_ids = vec![
        FileId::prelude(),
        FileId::new(1, 0),
        FileId::new(2, 0),
        FileId::new(3, 0),
    ];
    let is_dynamic = vec![false, false, false, true];
    let files = SymbolFiles {
        file_ids: &file_ids,
        is_dynamic: &is_dynamic,
    };
    let file = ResolvingFile {
        file_id: FileId::new(1, 0),
        symbol_id_range: SymbolIdRange::input(SymbolId::new(1), 1),
        is_dynamic: false,
        has_null_symbol: false,
        from_ir: false,
        check_globals: true,
    };
    let symbol = LocalSymbol {
        name: SymbolName::Unversioned(b"callee"),
        is_local: false,
        is_weak: false,
        visibility: Visibility::Default,
        found: Some(SymbolId::new(2)),
    };
    let id = SymbolId::new(1);
    let resolved = resolve_symbol(id, symbol, file, &files, ValueFlags::empty()).unwrap();
    assert_eq!(resolved.definition, Some(SymbolId::new(2)));
    assert_eq!(resolved.request, Some(FileId::new(2, 0)));
    assert!(resolved.flags.has_non_ir_ref);
    assert!(resolved.undefined.is_none());

    // A weak reference loads nothing.
    let weak = LocalSymbol {
        is_weak: true,
        ..symbol
    };
    let resolved = resolve_symbol(id, weak, file, &files, ValueFlags::empty()).unwrap();
    assert_eq!(resolved.request, None);
    assert_eq!(
        resolved.undefined.unwrap().ignore_if_loaded,
        Some(FileId::new(2, 0))
    );

    // A shared object does not load another one.
    let to_dynamic = LocalSymbol {
        found: Some(SymbolId::new(3)),
        ..symbol
    };
    let dynamic_file = ResolvingFile {
        is_dynamic: true,
        ..file
    };
    let resolved =
        resolve_symbol(id, to_dynamic, dynamic_file, &files, ValueFlags::empty()).unwrap();
    assert_eq!(resolved.request, None);

    // What nothing defines is undefined.
    let missing = LocalSymbol {
        found: None,
        ..symbol
    };
    let resolved = resolve_symbol(id, missing, file, &files, ValueFlags::empty()).unwrap();
    assert_eq!(resolved.definition, None);
    assert!(resolved.undefined.is_some());

    let local = LocalSymbol {
        is_local: true,
        ..symbol
    };
    assert!(resolve_symbol(id, local, file, &files, ValueFlags::empty()).is_err());

    // Without the check, a local symbol is resolved like any other.
    let unchecked = ResolvingFile {
        check_globals: false,
        ..file
    };
    let resolved = resolve_symbol(id, local, unchecked, &files, ValueFlags::empty()).unwrap();
    assert_eq!(resolved.definition, Some(SymbolId::new(2)));
    assert_eq!(resolved.request, Some(FileId::new(2, 0)));

    let mut definitions = vec![SymbolId::undefined()];
    let mut state = ResolutionState {
        flags: vec![ValueFlags::empty(); 4],
        requests: Vec::new(),
        undefined: Vec::new(),
    };
    resolve_symbols(
        &vec![symbol],
        file,
        &files,
        0,
        &mut definitions,
        &mut state,
    )
    .unwrap();
    assert_eq!(definitions, vec![SymbolId::new(2)]);
    assert_eq!(state.requests, vec![FileId::new(2, 0)]);
    assert!(state.flags[2].has_non_ir_ref);
}

#[test]
fn files_are_requested_once() {
    let mut files = PendingFiles::new();
    files.add_group(&vec![3, 5]);
    files.add_group(&vec![8]);
    assert_eq!(files.try_request_file_id(FileId::new(0, 1)), Some(5));
    assert_eq!(files.try_request_file_id(FileId::new(0, 1)), None);
    assert_eq!(files.try_request_file_id(FileId::new(1, 0)), Some(8));
    assert_eq!(files.try_request_file_id(FileId::new(0, 0)), Some(3));
}

#[test]
fn symbols_are_resolved_in_pieces() {
    let items = work_items_do(10, true, 4);
    let pieces: Vec<(usize, usize)> = items
        .iter()
        .map(|item| (item.symbol_start_offset, item.len))
        .collect();
    assert_eq!(pieces, vec![(0, 4), (4, 4), (8, 2)]);
    assert_eq!(work_items_do(10, false, 4).len(), 1);
    assert_eq!(work_items_do(0, true, 4).len(), 1);
    assert_eq!(work_items_do(8, true, 4).len(), 2);
    assert_eq!(process_object(GroupKind::Objects), ResolveStep::ResolveObject);
    assert_eq!(process_object(GroupKind::StubLibraries), ResolveStep::Nothing);
    assert_eq!(process_object(GroupKind::LinkerScripts), ResolveStep::LoadRedirects);
}

#[test]
fn entry_symbol_is_loaded() {
    let mut names = NameMap::new();
    names.insert(b"_start".to_vec(), 1);
    names.insert(b"wanted".to_vec(), 2);
    let file_ids = vec![FileId::prelude(), FileId::new(1, 0), FileId::new(2, 3)];
    let is_dynamic = vec![false; 3];
    let files = SymbolFiles {
        file_ids: &file_ids,
        is_dynamic: &is_dynamic,
    };
    let mut definitions = vec![SymbolId::undefined(), SymbolId::undefined()];
    let mut state = ResolutionState {
        flags: vec![ValueFlags::empty(); 3],
        requests: Vec::new(),
        undefined: Vec::new(),
    };
    load_prelude(
        Some(b"_start"),
        &vec![
            PreludeSymbol {
                name: b"wanted",
                placement: SymbolPlacement::ForceUndefined,
            },
            PreludeSymbol {
                name: b"absent",
                placement: SymbolPlacement::ForceUndefined,
            },
        ],
        &names,
        &files,
        &mut definitions,
        &mut state,
    );
    assert_eq!(state.requests, vec![FileId::new(1, 0), FileId::new(2, 3)]);
    assert!(state.flags[1].has_non_ir_ref);
    assert_eq!(definitions, vec![SymbolId::new(2), SymbolId::undefined()]);

    load_symbols_in_redirect(&vec![&b"wanted"[..]], &names, &files, &mut state);
    assert!(state.flags[2].has_non_ir_ref);
    assert_eq!(state.requests.len(), 3);
}

#[test]
fn expressions_load_symbols() {
    let mut names = NameMap::new();
    names.insert(b"a".to_vec(), 1);
    names.insert(b"b".to_vec(), 2);
    let definitions = vec![SymbolId::new(0), SymbolId::new(1), SymbolId::new(1)];
    let mut flags = vec![ValueFlags::empty(); 3];
    let a = Expression::Symbol(b"a");
    let b = Expression::Symbol(b"b");
    let sum = Expression::Add(&a, &b);
    let mut found = Vec::new();
    sum.collect_symbol_names(&mut found);
    assert_eq!(found, vec![&b"a"[..], b"b"]);
    // Both names have one definition, which is loaded once.
    let loads = load_expression_referenced_symbols(&sum, &names, &definitions, &mut flags);
    assert_eq!(loads, vec![SymbolId::new(1)]);
    assert!(flags[1].direct);

    // A symbol that stands for an expression is needed, and so is what the expression names.
    let mut flags = vec![ValueFlags::empty(); 3];
    let loads =
        load_redirect_referenced_symbols(SymbolId::new(0), &b, &names, &definitions, &mut flags);
    assert_eq!(loads, vec![SymbolId::new(1)]);
    assert!(flags[0].direct && flags[1].direct && !flags[2].direct);

    let missing = Expression::Symbol(b"missing");
    assert!(provide_has_missing_rhs(
        &SymbolPlacement::Redirect(missing),
        &names
    ));
    assert!(!provide_has_missing_rhs(
        &SymbolPlacement::Redirect(a),
        &names
    ));
    assert!(!provide_has_missing_rhs(&SymbolPlacement::Undefined, &names));
}

#[test]
fn undefined_symbols_of_one_name_have_one_definition() {
    let sections = sections_with_named(b"marked");
    let mut table = SymbolTable {
        names: NameMap::new(),
        definitions: (0..5).map(|_| SymbolId::undefined()).collect(),
        flags: vec![ValueFlags::empty(); 5],
        synthetic: Vec::new(),
    };
    let undefined = |id: u32, name: &'static [u8]| UndefinedSymbol {
        ignore_if_loaded: None,
        name: SymbolName::Unversioned(name),
        symbol_id: SymbolId::new(id),
    };
    let visibilities = vec![Visibility::Default; 5];
    let weak = vec![false; 5];
    let loaded = vec![vec![true]];
    canonicalise_undefined_symbols(
        &vec![
            undefined(1, b"same"),
            undefined(2, b"__start_marked"),
            undefined(3, b"same"),
            undefined(4, b"__stop_absent"),
        ],
        &mut table,
        &References {
            visibilities: &visibilities,
            weak: &weak,
            loaded: &loaded,
        },
        &sections,
        OutputKind::SharedObject,
        ValueFlags::empty(),
    )
    .unwrap();
    // The last reference stands for the name.
    assert_eq!(table.definitions[1], SymbolId::new(3));
    assert_eq!(table.definitions[3], SymbolId::new(3));
    assert!(table.flags[3].dynamic);
    assert_eq!(table.definitions[4], SymbolId::new(4));
    // The symbol that marks a section gets a definition of its own.
    assert_eq!(table.synthetic.len(), 1);
    assert_eq!(table.definitions[2], SymbolId::new(5));
    assert!(matches!(
        table.synthetic[0].placement,
        SymbolPlacement::SectionStart(OutputSectionId(2))
    ));
}

#[test]
fn symbols_are_exported() {
    let args = ExportArgs {
        export_from_archive: false,
        export_all_dynamic_symbols: false,
        has_export_list: false,
    };
    assert_eq!(
        export_symbols_mode(OutputKind::SharedObject, false, args),
        Some(ExportSymbolsMode::All)
    );
    assert_eq!(export_symbols_mode(OutputKind::SharedObject, true, args), None);
    assert_eq!(
        export_symbols_mode(
            OutputKind::SharedObject,
            true,
            ExportArgs {
                has_export_list: true,
                ..args
            }
        ),
        Some(ExportSymbolsMode::Selected)
    );

    let symbol = plain_symbol();
    let flags = ValueFlags::empty();
    assert!(can_export_symbol(symbol, true, flags, ExportSymbolsMode::All, None));
    assert!(!can_export_symbol(symbol, false, flags, ExportSymbolsMode::All, None));
    let hidden = ObjectSymbol {
        hidden: true,
        ..symbol
    };
    assert!(!can_export_symbol(hidden, true, flags, ExportSymbolsMode::All, None));
    assert!(!can_export_symbol(
        symbol,
        true,
        flags,
        ExportSymbolsMode::Selected,
        Some(false)
    ));
    assert!(can_export_symbol(
        symbol,
        true,
        flags,
        ExportSymbolsMode::Selected,
        Some(true)
    ));

    let file = object(
        vec![symbol, hidden],
        vec![SectionSlot::MergeStrings],
    );
    let mut symbol_flags = ValueFlags::empty();
    let actions = export_dynamic(
        &file,
        symbol,
        SymbolId::new(1),
        true,
        &mut symbol_flags,
        ExportSymbolsMode::All,
        None,
    )
    .unwrap();
    assert!(actions.load && actions.define);
    assert!(symbol_flags.export_dynamic);

    let definitions = vec![SymbolId::new(0), SymbolId::new(1), SymbolId::new(2)];
    let mut all_flags = vec![ValueFlags::empty(); 3];
    let actions = load_non_hidden_symbols(
        &file,
        &definitions,
        &mut all_flags,
        ExportSymbolsMode::All,
        &vec![None, None],
    );
    assert_eq!(actions.len(), 1);
    assert!(all_flags[1].export_dynamic && !all_flags[2].export_dynamic);
}

#[test]
fn undefined_symbols_are_reported() {
    let args = UndefinedArgs {
        allow_object_undefined: false,
        unresolved_symbols: UnresolvedSymbols::ReportAll,
        error_on_unresolved_symbols: true,
    };
    let flags = ValueFlags {
        absolute: true,
        ..ValueFlags::empty()
    };
    let symbol = Some(plain_symbol());
    assert!(should_emit_undefined_error(flags, symbol, args, true));
    assert!(!should_emit_undefined_error(flags, symbol, args, false));
    assert!(!should_emit_undefined_error(ValueFlags::empty(), symbol, args, true));
    assert!(!should_emit_undefined_error(flags, None, args, true));
    assert!(!should_emit_undefined_error(
        flags,
        Some(ObjectSymbol {
            weak: true,
            ..plain_symbol()
        }),
        args,
        true
    ));
    assert_eq!(
        check_for_undefined(flags, symbol, args, true),
        UndefinedReport::Error
    );
    assert_eq!(
        check_for_undefined(
            flags,
            symbol,
            UndefinedArgs {
                error_on_unresolved_symbols: false,
                ..args
            },
            true
        ),
        UndefinedReport::Warning
    );
    assert_eq!(
        check_for_undefined(
            flags,
            symbol,
            UndefinedArgs {
                unresolved_symbols: UnresolvedSymbols::IgnoreInObjectFiles,
                ..args
            },
            true
        ),
        UndefinedReport::Nothing
    );
}

#[test]
fn hidden_visibility_lowers_symbols() {
    let hidden = apply_visibility(ValueFlags::empty(), Visibility::Hidden);
    assert!(hidden.downgrade_to_local);
    let default = apply_visibility(ValueFlags::empty(), Visibility::Default);
    assert!(!default.downgrade_to_local);
}

#[test]
fn temporary_symbols_are_not_copied() {
    let local = ObjectSymbol {
        local: true,
        ..plain_symbol()
    };
    assert!(is_default_strippable(local, b"ltmp123"));
    assert!(!is_default_strippable(local, b"helper"));
    assert!(!is_default_strippable(plain_symbol(), b"ltmp123"));
    let loaded = SectionSlot::MergeStrings;
    assert!(loaded.is_loaded());
    let file = object(
        vec![plain_symbol(), local],
        vec![loaded, SectionSlot::Discard],
    );
    let args = SymtabArgs {
        should_output_partial_object: false,
        discard_none: false,
    };
    let copied = |symbol: ObjectSymbol, name: &'static [u8], args: SymtabArgs| {
        SymbolCopyInfo::new(
            &file,
            symbol,
            true,
            ValueFlags::empty(),
            Some(name),
            false,
            args,
        )
        .map(|info| info.name)
    };
    assert_eq!(copied(plain_symbol(), b"main", args), Some(&b"main"[..]));
    assert_eq!(copied(plain_symbol(), b"", args), None);
    assert_eq!(copied(local, b"ltmp0", args), None);
    let keep_all = SymtabArgs {
        discard_none: true,
        ..args
    };
    assert_eq!(copied(local, b"ltmp0", keep_all), Some(&b"ltmp0"[..]));
    let discarded = ObjectSymbol {
        section: SymbolSection::InSection(1),
        ..plain_symbol()
    };
    assert_eq!(copied(discarded, b"main", args), None);
    let common = ObjectSymbol {
        section: SymbolSection::NoSection,
        common: Some(CommonSymbol {
            size: 8,
            part_id: PartId(1),
        }),
        ..plain_symbol()
    };
    assert_eq!(copied(common, b"unused", args), None);

    let sections = sections_with_named(b"marked");
    let mut group = CommonGroupState::new(&sections);
    let names = vec![Some(&b"main"[..]), Some(b"ltmp0")];
    let strip_by_name = vec![false, false];
    let definitions = vec![SymbolId::new(0), SymbolId::new(1), SymbolId::new(2)];
    let flags = vec![ValueFlags::empty(); 3];
    assert!(allocate_object_symtab_space(
        &file,
        &mut group,
        &SymbolNames {
            names: &names,
            strip_by_name: &strip_by_name,
        },
        &definitions,
        &flags,
        args,
        PartId(0),
        PartId(1),
    ));
    // One entry of 16 bytes, and the name with a zero after it.
    assert_eq!(group.mem_sizes.get(PartId(0)), 16);
    assert_eq!(group.mem_sizes.get(PartId(1)), 5);
    // Nothing is reserved if all symbols are left out.
    for (should_strip_all, expected) in [(true, 16), (false, 32)] {
        assert!(finalise_object_sizes(
            &file,
            &mut group,
            &SymbolNames {
                names: &names,
                strip_by_name: &strip_by_name,
            },
            &definitions,
            &flags,
            args,
            PartId(0),
            PartId(1),
            should_strip_all,
        ));
        assert_eq!(group.mem_sizes.get(PartId(0)), expected);
    }
}

#[test]
fn maps_hold_what_was_inserted() {
    let mut ids = IdMap::new();
    assert_eq!(ids.get(1), None);
    ids.insert(1, 10);
    ids.insert(2, 20);
    ids.insert(1, 11);
    assert_eq!(ids.get(1), Some(11));
    assert!(ids.contains_key(2) && !ids.contains_key(3));
    ids.raise(2, 5);
    assert_eq!(ids.get(2), Some(20));
    ids.raise(2, 25);
    assert_eq!(ids.get(2), Some(25));
    let mut keys = ids.keys();
    keys.sort();
    assert_eq!(keys, vec![1, 2]);
    let mut names = NameMap::new();
    names.insert(b"x".to_vec(), 1);
    names.insert(b"x".to_vec(), 2);
    assert_eq!(names.get(b"x"), Some(2));
    assert_eq!(names.get(b"y"), None);
}
