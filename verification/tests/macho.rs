use libwild::alignment::Alignment;
use libwild::file_id::FileId;
use libwild::hash_maps::IdMap;
use libwild::input_sections::{Section, SectionSlot};
use libwild::layout_queries::{Layout, ObjectLayout};
use libwild::macho_attributes::{
    section_type, should_exclude, MachOAttributes, SegmentName, S_ATTR_EXT_RELOC,
    S_ATTR_PURE_INSTRUCTIONS, S_THREAD_LOCAL_REGULAR, S_THREAD_LOCAL_VARIABLES,
    S_THREAD_LOCAL_ZEROFILL, S_ZEROFILL,
};
use libwild::macho_imports::{
    create_dynamic_layout_ext, create_finalise_sizes_ext, create_layout_ext, new_epilogue_layout,
    DefiningInput, DynamicLayoutStateExt, GroupFile, ImportError, ImportedSymbolWithResolution,
    Library,
};
use libwild::macho_order::output_order;
use libwild::macho_sections::{
    built_in_section_infos, finalise_output_section_alignments, properties, section_attributes,
    section_identity, section_identity_text,
};
use libwild::macho_segments::{
    count_sections_for_segment, platform_sections, MachOSegmentDef, SinglePartSectionId,
    SG_READ_ONLY, VM_PROT_EXECUTE, VM_PROT_READ, VM_PROT_WRITE,
};
use libwild::macho_objects::{
    relocation_values, write_object, ObjectSectionError, SectionInput, SectionRelocation,
};
use libwild::macho_sizes::{
    allocate_header_sizes, allocate_prelude, code_signature_padded_identifier_size,
    compute_fixup_table_size, finalise_sizes_epilogue, last_part_size_to_extend,
    load_dylib_command_size, ExtendError, BUILD_VERSION_COMMAND_SIZE, CS_BLOCK_SIZE,
    CS_HASH_SIZE, CS_HEADERS_SIZE, DYLIB_COMMAND_SIZE, DYLINKER_COMMAND_SIZE, DYLINKER_PATH_LEN,
    ENTRY_POINT_COMMAND_SIZE, FILE_HEADER_SIZE, LINKEDIT_DATA_COMMAND_SIZE, SECTION_ENTRY_SIZE,
    SEGMENT_COMMAND_SIZE, SYMTAB_COMMAND_SIZE, UUID_COMMAND_SIZE,
};
use libwild::macho_symbols::{
    FrameIndex, RawSymbolName, SymtabEntry, N_ABS, N_EXT, N_PEXT, N_STAB,
    N_TYPE, N_WEAK_DEF,
};
use libwild::macho_writer::{
    apply_relocation, get_resolution, plt_entries, plt_entries_fit, process_relocation,
    relocation_target, write_got_entries, write_section_raw, RelInfo, RelocationError,
    RelocationTarget, WriteSectionError, ARM64_RELOC_BRANCH26, ARM64_RELOC_TLVP_LOAD_PAGEOFF12,
};
use libwild::output_kind::{OutputKind, RelocationModel};
use libwild::output_order::OrderEvent;
use libwild::output_section_id::{
    file_header, CommonSinglePartSectionId, OutputSectionId, PartId,
};
use libwild::output_section_part_map::OutputSectionPartMap;
use libwild::output_sections::{CustomSectionDetails, OutputSections, SectionIdentity};
use libwild::program_segments::ProgramSegmentId;
use libwild::record_layout::OutputRecordLayout;
use libwild::resolution::{Resolution, SectionResolution};
use libwild::section_classes::{CustomSectionIds, OrphanClass};
use libwild::section_loading::AttributeMap;
use libwild::segment_layout::SegmentLayouts;
use libwild::symbol_id::{SymbolId, SymbolIdRange};
use libwild::symbol_resolution::Visibility;
use libwild::symbol_rules::SYMTAB_ENTRY_SIZE;
use libwild::value_flags::{RelocationKind, ValueFlags};
use object::macho;
use object::LittleEndian;
use std::mem::size_of;

fn sections_for_testing() -> (OutputSections<'static>, PartId) {
    let mut sections = OutputSections::with_base_address(
        platform_sections(),
        built_in_section_infos(),
        0x1_0000_0000,
        OutputKind::DynamicExecutable(RelocationModel::PositionIndependent),
    );
    let (id, part_id) = sections.add_section(CustomSectionDetails {
        identity: section_identity(b"__data", b"__DATA"),
        index: 0,
        alignment: Alignment::address(),
        start_address: None,
    });
    sections.section_infos.get_mut(id).section_attributes =
        properties(&section_attributes(0, b"__DATA"));
    (sections, part_id)
}

/// A layout in which each symbol defines itself.
fn layout_of(
    output_sections: OutputSections<'static>,
    symbol_resolutions: Vec<Option<Resolution>>,
) -> Layout<'static> {
    let num_symbols = symbol_resolutions.len();
    let section_layouts = output_sections.new_section_map();
    let section_part_layouts = output_sections.new_part_map();
    Layout {
        group_layouts: Vec::new(),
        symbol_resolutions,
        definitions: (0..num_symbols).map(SymbolId::from_usize).collect(),
        per_symbol_flags: vec![ValueFlags::empty(); num_symbols],
        symbol_file_ids: vec![FileId::new(0, 0); num_symbols],
        symbol_id_ranges: Vec::new(),
        output_sections,
        section_layouts,
        section_part_layouts,
        segment_layouts: SegmentLayouts {
            segments: Vec::new(),
            tls_layout: None,
        },
        thunk_block_sizes: Vec::new(),
        got_section_id: None,
        gnu_version_section_id: None,
        incremental: false,
        incremental_atoms: IdMap::new(),
        incremental_skip_payloads: IdMap::new(),
        incremental_reverse_relocs: Vec::new(),
        incremental_patch: None,
    }
}

/// An object whose symbols start with the second one of the layout.
fn object_of(
    sections: Vec<SectionSlot>,
    part_id: PartId,
    section_resolutions: Vec<SectionResolution>,
    num_symbols: usize,
) -> ObjectLayout<'static> {
    let count = sections.len();
    ObjectLayout {
        file_id: FileId::new(0, 0),
        symbol_id_range: SymbolIdRange::input(SymbolId::new(1), num_symbols),
        key: b"a.o",
        path: b"a.o",
        archive_entry: None,
        temporary: false,
        sections,
        section_resolutions,
        section_part_ids: vec![part_id; count],
        section_sizes: vec![Some(5); count],
    }
}

fn resolved_to(raw_value: u64) -> Option<Resolution> {
    Some(Resolution {
        raw_value,
        dynamic_symbol_index: None,
        flags: ValueFlags::empty(),
        got_address: None,
        plt_address: None,
    })
}

#[test]
fn sizes_are_those_of_the_file_format() {
    assert_eq!(FILE_HEADER_SIZE as usize, size_of::<macho::MachHeader64<LittleEndian>>());
    assert_eq!(
        SEGMENT_COMMAND_SIZE as usize,
        size_of::<macho::SegmentCommand64<LittleEndian>>()
    );
    assert_eq!(SECTION_ENTRY_SIZE as usize, size_of::<macho::Section64<LittleEndian>>());
    assert_eq!(
        ENTRY_POINT_COMMAND_SIZE as usize,
        size_of::<macho::EntryPointCommand<LittleEndian>>()
    );
    assert_eq!(
        DYLINKER_COMMAND_SIZE as usize,
        size_of::<macho::DylinkerCommand<LittleEndian>>()
    );
    assert_eq!(DYLINKER_PATH_LEN as usize, b"/usr/lib/dyld".len());
    assert_eq!(DYLIB_COMMAND_SIZE, size_of::<macho::DylibCommand<LittleEndian>>());
    assert_eq!(
        LINKEDIT_DATA_COMMAND_SIZE as usize,
        size_of::<macho::LinkeditDataCommand<LittleEndian>>()
    );
    assert_eq!(SYMTAB_COMMAND_SIZE as usize, size_of::<macho::SymtabCommand<LittleEndian>>());
    assert_eq!(UUID_COMMAND_SIZE as usize, size_of::<macho::UuidCommand<LittleEndian>>());
    assert_eq!(
        BUILD_VERSION_COMMAND_SIZE as usize,
        size_of::<macho::BuildVersionCommand<LittleEndian>>()
    );
    assert_eq!(SYMTAB_ENTRY_SIZE as usize, size_of::<macho::Nlist64<LittleEndian>>());
}

#[test]
fn constants_are_those_of_the_file_format() {
    assert_eq!(S_ZEROFILL, macho::S_ZEROFILL.0);
    assert_eq!(S_THREAD_LOCAL_REGULAR, macho::S_THREAD_LOCAL_REGULAR.0);
    assert_eq!(S_THREAD_LOCAL_ZEROFILL, macho::S_THREAD_LOCAL_ZEROFILL.0);
    assert_eq!(S_THREAD_LOCAL_VARIABLES, macho::S_THREAD_LOCAL_VARIABLES.0);
    assert_eq!(S_ATTR_PURE_INSTRUCTIONS, macho::S_ATTR_PURE_INSTRUCTIONS.0);
    assert_eq!(VM_PROT_READ, macho::VM_PROT_READ.0);
    assert_eq!(VM_PROT_WRITE, macho::VM_PROT_WRITE.0);
    assert_eq!(VM_PROT_EXECUTE, macho::VM_PROT_EXECUTE.0);
    assert_eq!(SG_READ_ONLY, macho::SG_READ_ONLY.0);
    assert_eq!(ARM64_RELOC_BRANCH26, macho::ARM64_RELOC_BRANCH26.0);
    assert_eq!(
        ARM64_RELOC_TLVP_LOAD_PAGEOFF12,
        macho::ARM64_RELOC_TLVP_LOAD_PAGEOFF12.0
    );
    assert_eq!(N_EXT, macho::N_EXT.0);
    assert_eq!(N_PEXT, macho::N_PEXT.0);
    assert_eq!(N_ABS, macho::N_ABS.0);
    assert_eq!(N_STAB, macho::N_STAB);
    assert_eq!(N_WEAK_DEF, macho::N_WEAK_DEF.0);
    assert_eq!(N_TYPE, 0x0e);
}

#[test]
fn segment_names_are_padded() {
    let name = SegmentName::from_bytes(b"__DATA");
    assert_eq!(&name.into_bytes(), b"__DATA\0\0\0\0\0\0\0\0\0\0");
    assert!(name.is(SegmentName::data()));
    assert!(!name.is(SegmentName::data_const()));
    assert_eq!(&SegmentName::text().into_bytes()[..7], b"__TEXT\0");
    assert_eq!(&SegmentName::pagezero().into_bytes()[..11], b"__PAGEZERO\0");
    assert_eq!(&SegmentName::linkedit().into_bytes()[..11], b"__LINKEDIT\0");
    assert!(SegmentName::data().is_writable());
    assert!(!SegmentName::text().is_writable());
    assert!(should_exclude(0, SegmentName::llvm()));
    assert!(!should_exclude(0, SegmentName::text()));
}

#[test]
fn attributes_merge() {
    let mut code = MachOAttributes::new(S_ATTR_PURE_INSTRUCTIONS, Some(SegmentName::text()));
    assert!(code.is_executable() && !code.is_writable());
    let data = MachOAttributes::new(0, Some(SegmentName::data()));
    assert!(data.is_writable() && !data.is_executable());
    code.merge(data);
    assert!(code.is_executable() && code.is_writable());
    let zeros = section_attributes(S_ZEROFILL as u32, b"__DATA");
    assert!(zeros.is_no_bits());
    assert!(properties(&zeros).no_bits);
    let tls = section_attributes(S_THREAD_LOCAL_REGULAR as u32, b"__DATA");
    assert!(tls.is_tls() && properties(&tls).tls);
    assert_eq!(section_type(0x8000_0413), S_THREAD_LOCAL_VARIABLES);
}

#[test]
fn names_are_shown_with_segments() {
    assert_eq!(
        section_identity_text(b"__text", Some(b"__TEXT")),
        b"__TEXT,__text".to_vec()
    );
    assert_eq!(section_identity_text(b"STRTAB", None), b"STRTAB".to_vec());
    let identity = section_identity(b"__text", b"__TEXT");
    assert_eq!(identity.format_specific, Some(SegmentName::text().into_bytes()));
}

#[test]
fn sections_are_in_their_segments() {
    let (sections, part_id) = sections_for_testing();
    let data = part_id.output_section_id(&sections.platform);
    let ordered = output_order(&sections, &Vec::new(), false);
    let position = |wanted: &dyn Fn(&OrderEvent) -> bool| {
        ordered.order.events.iter().position(|event| wanted(event))
    };
    let segment = ordered
        .segments
        .iter()
        .position(|def| def.name.is(SegmentName::data()))
        .unwrap();
    let start = position(&|event| matches!(event, OrderEvent::SegmentStart(id) if id.0 == segment))
        .unwrap();
    let end = position(&|event| matches!(event, OrderEvent::SegmentEnd(id) if id.0 == segment))
        .unwrap();
    let section =
        position(&|event| matches!(event, OrderEvent::Section(id) if *id == data)).unwrap();
    assert!(start < section && section < end);
    assert_eq!(
        position(&|event| matches!(event, OrderEvent::Section(id) if *id == file_header()))
            .map(|position| position < section),
        Some(true)
    );
    let last = ordered
        .order
        .events
        .iter()
        .rev()
        .find_map(|event| match event {
            OrderEvent::Section(id) => Some(*id),
            _ => None,
        });
    assert_eq!(last, Some(SinglePartSectionId::CodeSignature.output_section_id()));
    let def = MachOSegmentDef::new(SegmentName::data());
    assert!(def.is_writable() && !def.is_executable() && def.is_loadable());
    assert!(MachOSegmentDef::new(SegmentName::text()).is_executable());
    assert_eq!(count_sections_for_segment(&sections, def), 0);
}

#[test]
fn thread_local_sections_are_aligned_alike() {
    let (mut sections, _) = sections_for_testing();
    let mut details = |name: &'static [u8], alignment: Alignment| {
        sections.add_section(CustomSectionDetails {
            identity: SectionIdentity::new(name, Some(SegmentName::data().into_bytes())),
            index: 0,
            alignment,
            start_address: None,
        })
    };
    let (regular, regular_part) = details(b"__thread_data", Alignment::address());
    let (zerofill, zerofill_part) = details(b"__thread_bss", Alignment::new(32).unwrap());
    let (variables, _) = details(b"__thread_vars", Alignment::one());
    for (id, ty) in [
        (regular, S_THREAD_LOCAL_REGULAR),
        (zerofill, S_THREAD_LOCAL_ZEROFILL),
        (variables, S_THREAD_LOCAL_VARIABLES),
    ] {
        section_attributes(ty as u32, b"__DATA").apply(&mut sections, id);
    }
    let mut sizes: OutputSectionPartMap<u64> = sections.new_part_map();
    sizes.set(regular_part, 8);
    sizes.set(zerofill_part, 64);
    finalise_output_section_alignments(&sizes, &mut sections);
    assert_eq!(sections.min_alignment(regular).value(), 32);
    assert_eq!(sections.min_alignment(zerofill).value(), 32);
    assert_eq!(sections.min_alignment(variables).value(), 8);
}

#[test]
fn new_sections_are_loaded() {
    let (mut sections, _) = sections_for_testing();
    let (id, _) = sections.add_section(CustomSectionDetails {
        identity: section_identity(b"__const", b"__TEXT"),
        index: 0,
        alignment: Alignment::one(),
        start_address: None,
    });
    let known = sections.section_flags(id);
    assert!(known.alloc && !known.writable && !known.executable && !known.tls && !known.no_bits);
    assert_eq!((known.ty, known.flags), (0, 0));
    assert_eq!(CustomSectionIds::class_of(&known), OrphanClass::Ro);
    let ordered = output_order(&sections, &Vec::new(), false);
    let emitted = |wanted: OutputSectionId| {
        ordered
            .order
            .events
            .iter()
            .filter(|event| matches!(event, OrderEvent::Section(id) if *id == wanted))
            .count()
    };
    assert_eq!(emitted(id), 1);
    // No section is emitted twice.
    for other in 0..sections.num_sections() {
        assert!(emitted(OutputSectionId(other as u32)) <= 1);
    }
}

#[test]
fn attributes_of_inputs_are_applied() {
    let (mut sections, part_id) = sections_for_testing();
    let data = part_id.output_section_id(&sections.platform);
    let (code, _) = sections.add_section(CustomSectionDetails {
        identity: section_identity(b"__text", b"__TEXT"),
        index: 0,
        alignment: Alignment::one(),
        start_address: None,
    });
    let mut inputs = AttributeMap::new();
    inputs.merge(
        code,
        MachOAttributes::new(
            S_ATTR_PURE_INSTRUCTIONS | S_ATTR_EXT_RELOC,
            Some(SegmentName::text()),
        ),
    );
    inputs.merge(code, MachOAttributes::new(2, Some(SegmentName::text())));
    let untouched = sections.section_flags(data);
    inputs.apply(&mut sections);
    let known = sections.section_flags(code);
    assert!(known.alloc && known.executable && !known.writable && !known.no_bits);
    // Attributes about relocations do not carry over, and the larger type wins.
    assert_eq!(known.flags, S_ATTR_PURE_INSTRUCTIONS as u64);
    assert_eq!(known.ty, 2);
    assert_eq!(sections.section_flags(data), untouched);
    section_attributes(S_ZEROFILL as u32, b"__DATA").apply(&mut sections, code);
    let known = sections.section_flags(code);
    assert!(known.writable && known.executable && !known.no_bits);
    assert_eq!(known.ty, 2);
}

#[test]
fn the_last_section_with_an_index_counts() {
    let (mut sections, _) = sections_for_testing();
    let details = |name: &'static [u8], index: usize| CustomSectionDetails {
        identity: section_identity(name, b"__TEXT"),
        index,
        alignment: Alignment::one(),
        start_address: None,
    };
    let mut part_ids = vec![PartId(0); 3];
    sections.add_sections(
        &vec![details(b"__a", 1), details(b"__b", 2), details(b"__c", 1)],
        &mut part_ids,
    );
    let name = |part: PartId| {
        sections
            .name(part.output_section_id(&sections.platform))
            .unwrap()
    };
    assert_eq!(part_ids[0], PartId(0));
    assert_eq!(name(part_ids[1]), b"__c");
    assert_eq!(name(part_ids[2]), b"__b");
}

#[test]
fn header_sizes_add_up() {
    // 24 bytes, the name and a zero, rounded up to 8.
    assert_eq!(load_dylib_command_size(b"/usr/lib/libSystem.B.dylib"), Some(56));
    assert_eq!(load_dylib_command_size(b"1234567"), Some(32));
    assert_eq!(load_dylib_command_size(b"12345678"), Some(40));
    assert_eq!(code_signature_padded_identifier_size(b"a.out"), Some(16));
    assert_eq!(code_signature_padded_identifier_size(&[b'x'; 16]), Some(32));

    let (sections, _) = sections_for_testing();
    let mut sizes: OutputSectionPartMap<u64> = sections.new_part_map();
    let (dylib_sizes, _) = match allocate_header_sizes(
        &mut sizes,
        &Vec::new(),
        &Vec::new(),
        &sections,
        OutputKind::SharedObject,
        &vec![&b"1234567"[..]],
        false,
    ) {
        Ok(allocated) => allocated,
        Err(_) => panic!("too large"),
    };
    assert_eq!(dylib_sizes, vec![32]);
    assert_eq!(
        sizes.get(CommonSinglePartSectionId::FileHeader.part_id()),
        FILE_HEADER_SIZE
    );
    assert!(sizes.get(SinglePartSectionId::LoadCommands.part_id()) >= 32);
    sizes.set(CommonSinglePartSectionId::FileHeader.part_id(), u64::MAX);
    assert!(allocate_header_sizes(
        &mut sizes,
        &Vec::<ProgramSegmentId>::new(),
        &Vec::new(),
        &sections,
        OutputKind::SharedObject,
        &Vec::new(),
        false,
    )
    .is_err());
}

#[test]
fn tables_are_allocated() {
    let (sections, _) = sections_for_testing();
    let mut sizes: OutputSectionPartMap<u64> = sections.new_part_map();
    assert!(allocate_prelude(&mut sizes, b"a.out").is_ok());
    assert_eq!(sizes.get(SinglePartSectionId::Strtab.part_id()), 1);
    assert_eq!(
        sizes.get(SinglePartSectionId::CodeSignature.part_id()),
        CS_HEADERS_SIZE + 16
    );
    let one = compute_fixup_table_size(&vec![5]).unwrap();
    let two = compute_fixup_table_size(&vec![5, 9]).unwrap();
    assert!(one < two);
    assert_eq!(compute_fixup_table_size(&vec![u64::MAX]), None);
    assert!(finalise_sizes_epilogue(&mut sizes, &vec![5, 9], 40).is_ok());
    assert_eq!(
        sizes.get(SinglePartSectionId::ChainedFixupTable.part_id()),
        two
    );

    // The addresses of 3000 imports take up two pages.
    let mut sizes: OutputSectionPartMap<u64> = sections.new_part_map();
    let imports = vec![8; 3000];
    assert_eq!(compute_fixup_table_size(&imports), Some(39082));
    assert!(finalise_sizes_epilogue(&mut sizes, &imports, 0).is_ok());
    assert_eq!(
        sizes.get(SinglePartSectionId::ChainedFixupTable.part_id()),
        39088
    );

    // One hash for each block of the file.
    let record = OutputRecordLayout {
        file_size: 0,
        mem_size: 0,
        alignment: Alignment::one(),
        file_offset: 2 * CS_BLOCK_SIZE + 1,
        mem_offset: 0,
        lma_offset: 0,
    };
    assert_eq!(
        last_part_size_to_extend(&record, SinglePartSectionId::CodeSignature.part_id()),
        Ok(3 * CS_HASH_SIZE)
    );
    assert_eq!(
        last_part_size_to_extend(&record, PartId(0)),
        Err(ExtendError::NotCodeSignature)
    );
}

fn resolution(got_address: Option<u64>, plt_address: Option<u64>) -> Resolution {
    Resolution {
        raw_value: 0x100,
        dynamic_symbol_index: None,
        flags: ValueFlags::empty(),
        got_address,
        plt_address,
    }
}

#[test]
fn imports_are_ordered_by_entry() {
    let mut library = Library {
        file_id: FileId::new(1, 0),
        state: DynamicLayoutStateExt::new(true),
    };
    assert!(!library.state.loaded);
    library.state.load_stub_library_symbol(SymbolId::new(2));
    library.state.load_stub_library_symbol(SymbolId::new(1));
    assert!(library.state.loaded);
    let groups = vec![vec![
        GroupFile::Other,
        GroupFile::StubLibrary(library),
        GroupFile::Dynamic(Library {
            file_id: FileId::new(1, 1),
            state: DynamicLayoutStateExt::new(true),
        }),
    ]];
    let collected = create_finalise_sizes_ext(&groups);
    // A library that nothing is taken from is dropped.
    assert_eq!(collected.imported_libraries, vec![FileId::new(1, 0)]);
    let imported = new_epilogue_layout(&groups);
    assert_eq!(imported.len(), 2);
    let resolutions = vec![
        None,
        Some(resolution(Some(0x4000), None)),
        Some(resolution(Some(0x4008), Some(0x1000))),
    ];
    let sorted = create_layout_ext(&imported, &resolutions).unwrap();
    assert_eq!(
        sorted,
        vec![
            ImportedSymbolWithResolution {
                symbol_id: SymbolId::new(1),
                got_address: 0x4000,
                plt_address: None,
            },
            ImportedSymbolWithResolution {
                symbol_id: SymbolId::new(2),
                got_address: 0x4008,
                plt_address: Some(0x1000),
            },
        ]
    );
    assert_eq!(
        create_layout_ext(&imported, &vec![None, None, None]),
        Err(ImportError::MissingResolution)
    );
    assert_eq!(
        create_layout_ext(
            &imported,
            &vec![None, Some(resolution(None, None)), Some(resolution(None, None))]
        ),
        Err(ImportError::MissingGotEntry)
    );
    let libraries = collected.imported_libraries;
    assert_eq!(create_dynamic_layout_ext(FileId::new(1, 0), &libraries), Ok(Some(1)));
    assert_eq!(create_dynamic_layout_ext(FileId::new(1, 1), &libraries), Ok(None));
    let many: Vec<FileId> = (0..256).map(|group| FileId::new(group, 0)).collect();
    assert!(create_dynamic_layout_ext(FileId::new(255, 0), &many).is_err());
    assert_eq!(create_dynamic_layout_ext(FileId::new(254, 0), &many), Ok(Some(255)));
}

#[test]
fn libraries_have_install_names() {
    let stub = DefiningInput::StubLibrary {
        install_name: b"/usr/lib/libSystem.B.dylib",
    };
    assert!(stub.is_dynamic_library());
    assert_eq!(stub.install_name(), b"/usr/lib/libSystem.B.dylib");
    let object = DefiningInput::Object {
        is_dynamic: false,
        lib_name: b"libx",
    };
    assert!(!object.is_dynamic_library());
    assert_eq!(object.install_name(), b"libx");
    assert!(!DefiningInput::Other.is_dynamic_library());
}

#[test]
fn entries_form_a_chain() {
    let imports = vec![
        ImportedSymbolWithResolution {
            symbol_id: SymbolId::new(1),
            got_address: 0x4000,
            plt_address: Some(0x100c),
        },
        ImportedSymbolWithResolution {
            symbol_id: SymbolId::new(2),
            got_address: 0x4008,
            plt_address: None,
        },
    ];
    let mut got = [0u8; 16];
    assert!(write_got_entries(&imports, 0x4000, &mut got).is_ok());
    assert_eq!(
        u64::from_le_bytes(got[..8].try_into().unwrap()),
        (1 << 63) | (2 << 51)
    );
    assert_eq!(
        u64::from_le_bytes(got[8..].try_into().unwrap()),
        (1 << 63) | 1
    );
    assert!(write_got_entries(&imports, 0x4001, &mut got).is_err());

    let entries = plt_entries(&imports, 0x1000).unwrap();
    assert_eq!(entries.len(), 1);
    assert_eq!((entries[0].offset, entries[0].got_address), (12, 0x4000));
    assert!(plt_entries_fit(&entries, 24));
    assert!(!plt_entries_fit(&entries, 23));
    assert!(plt_entries(&imports, 0x2000).is_err());
}

#[test]
fn sections_are_written_with_padding() {
    let (sections, part_id) = sections_for_testing();
    let section = Section::create(5, 1).unwrap();
    let mut part = [0xffu8; 16];
    let (range, next) =
        write_section_raw(&mut part, 0, section, b"12345", part_id, false, &sections).unwrap();
    assert_eq!((range, next), (Some((0, 5)), 8));
    assert_eq!(&part[..9], b"12345\0\0\0\xff");
    assert_eq!(
        write_section_raw(&mut part, 12, section, b"12345", part_id, false, &sections),
        Err(WriteSectionError::InsufficientSpace {
            needed: 8,
            remaining: 4
        })
    );
}

#[test]
fn objects_are_written_section_by_section() {
    let (sections, part_id) = sections_for_testing();
    let part = part_id.0 as usize;
    let section = |contents: &'static [u8]| SectionInput {
        packed: false,
        contents,
        section_type: 0,
        relocations: Vec::new(),
    };
    let loaded = SectionSlot::Loaded(Section::create(5, 1).unwrap());
    let address = SectionResolution { address: 0x1000 };
    let object = object_of(
        vec![loaded, SectionSlot::Discard, loaded],
        part_id,
        vec![address, SectionResolution::none(), address],
        0,
    );
    let inputs = vec![section(b"12345"), section(b"left out"), section(b"abcde")];
    let layout = layout_of(sections, vec![None]);
    let mut parts = vec![Vec::new(); part + 1];
    parts[part] = vec![0xff; 18];
    let mut positions = vec![0; part + 1];
    positions[part] = 1;
    let written = write_object(&mut parts, &mut positions, &object, &inputs, &layout)
        .ok()
        .unwrap();
    assert_eq!(parts[part], b"\xff12345\0\0\0abcde\0\0\0\xff");
    assert_eq!(positions[part], 17);
    let ranges: Vec<_> = written.iter().map(|section| section.range).collect();
    assert_eq!(ranges, [Some((1, 6)), Some((9, 14))]);

    let error = write_object(&mut parts, &mut positions, &object, &inputs, &layout).err();
    assert_eq!(
        error,
        Some(ObjectSectionError::Write(
            WriteSectionError::InsufficientSpace {
                needed: 8,
                remaining: 1
            }
        ))
    );
    assert_eq!(positions[part], 17);

    let object = object_of(vec![loaded], part_id, vec![SectionResolution::none()], 0);
    positions[part] = 1;
    let inputs = vec![section(b"12345")];
    let error = write_object(&mut parts, &mut positions, &object, &inputs, &layout).err();
    assert_eq!(error, Some(ObjectSectionError::NotLoaded));
    assert_eq!(positions[part], 9);
}

fn target() -> RelocationTarget {
    RelocationTarget {
        place: 0x1000,
        value: 0x1_0000_2345,
        flags: ValueFlags::empty(),
        section_type: 0,
        is_tlv_template: false,
        tlv_data_start: 0x1_0000_2000,
    }
}

fn info(kind: RelocationKind, mask: u64) -> RelInfo {
    RelInfo {
        kind,
        symbol_mask: mask,
        place_mask: mask,
    }
}

#[test]
fn relocations_compute_values() {
    let all = u64::MAX;
    let pages = !0xfff;
    let value = |kind: RelocationKind, mask: u64| {
        apply_relocation(target(), 0, None, Some(info(kind, mask)))
    };
    assert_eq!(value(RelocationKind::Absolute, all), Ok(0x1_0000_2345));
    assert_eq!(value(RelocationKind::AbsoluteLowPart, 0xfff), Ok(0x345));
    assert_eq!(value(RelocationKind::Relative, all), Ok(0x1_0000_1345));
    assert_eq!(value(RelocationKind::GotRelative, pages), Ok(0x1_0000_1000));
    assert_eq!(
        value(RelocationKind::TlsGd, all),
        Err(RelocationError::UnsupportedKind)
    );
    assert_eq!(
        apply_relocation(target(), 0, None, None),
        Err(RelocationError::UnknownType)
    );
    assert_eq!(
        apply_relocation(
            target(),
            ARM64_RELOC_TLVP_LOAD_PAGEOFF12,
            None,
            Some(info(RelocationKind::Absolute, all))
        ),
        Err(RelocationError::TlvNotRelaxed)
    );
    let tlv = RelocationTarget {
        section_type: S_THREAD_LOCAL_VARIABLES,
        is_tlv_template: true,
        ..target()
    };
    assert_eq!(
        apply_relocation(tlv, 0, None, Some(info(RelocationKind::Absolute, all))),
        Ok(0x345)
    );

    let (sections, part_id) = sections_for_testing();
    let layout = layout_of(sections, vec![None, resolved_to(0x1_0000_2345), None]);
    let object = object_of(Vec::new(), part_id, Vec::new(), 2);
    let relocation = |offset: u32, kind: RelocationKind| SectionRelocation {
        offset,
        r_type: 0,
        relaxed: None,
        raw: Some(info(kind, all)),
        symbol_index: 0,
        section_index: None,
        section_id: None,
    };
    let values = |address: Option<u64>, relocations: Vec<SectionRelocation>| {
        relocation_values(address, 0, &relocations, &object, &layout)
    };
    assert_eq!(
        values(
            Some(0x1_0000_0000),
            vec![
                relocation(0, RelocationKind::Absolute),
                relocation(0x45, RelocationKind::Relative)
            ]
        ),
        Ok(vec![0x1_0000_2345, 0x2300])
    );
    assert_eq!(values(None, Vec::new()), Err(ObjectSectionError::NotLoaded));
    assert_eq!(
        values(Some(u64::MAX), vec![relocation(1, RelocationKind::Relative)]),
        Err(ObjectSectionError::Overflow)
    );
    assert_eq!(
        values(
            Some(0),
            vec![
                relocation(1, RelocationKind::Relative),
                relocation(1, RelocationKind::TlsGd)
            ]
        ),
        Err(ObjectSectionError::Relocation(1, RelocationError::UnsupportedKind))
    );
    // That nothing has an address counts before the kind of relocation.
    let unresolved = SectionRelocation {
        symbol_index: 1,
        ..relocation(1, RelocationKind::TlsGd)
    };
    assert_eq!(
        values(Some(0), vec![unresolved]),
        Err(ObjectSectionError::Relocation(0, RelocationError::MissingResolution))
    );
}

#[test]
fn relocations_find_what_they_refer_to() {
    let (mut sections, _) = sections_for_testing();
    let (tlv_id, _) = sections.add_section(CustomSectionDetails {
        identity: section_identity(b"__thread_data", b"__DATA"),
        index: 1,
        alignment: Alignment::address(),
        start_address: None,
    });
    section_attributes(S_THREAD_LOCAL_REGULAR as u32, b"__DATA").apply(&mut sections, tlv_id);
    let mut layout = layout_of(sections, vec![None, resolved_to(0x3010), None]);
    let dynamic = ValueFlags {
        dynamic: true,
        ..ValueFlags::empty()
    };
    layout.per_symbol_flags[1] = dynamic;
    layout.section_layouts.set(
        tlv_id,
        OutputRecordLayout {
            file_size: 0x20,
            mem_size: 0x20,
            alignment: Alignment::address(),
            file_offset: 0x3000,
            mem_offset: 0x3000,
            lma_offset: 0x3000,
        },
    );
    let range = SymbolIdRange::input(SymbolId::new(1), 2);
    let resolutions = vec![
        SectionResolution { address: 0x2000 },
        SectionResolution::none(),
    ];
    let find = |symbol_index: usize, section_index: Option<usize>| {
        relocation_target(
            &layout,
            symbol_index,
            range,
            section_index,
            &resolutions,
            Some(tlv_id),
            S_THREAD_LOCAL_VARIABLES,
            0x1000,
        )
    };
    let expected = RelocationTarget {
        place: 0x1000,
        value: 0x3010,
        flags: dynamic,
        section_type: S_THREAD_LOCAL_VARIABLES,
        is_tlv_template: true,
        tlv_data_start: 0x3000,
    };
    assert_eq!(find(0, Some(1)), Ok(expected));
    assert_eq!(
        find(1, Some(0)),
        Ok(RelocationTarget {
            value: 0x2000,
            flags: ValueFlags::empty(),
            ..expected
        })
    );
    assert_eq!(find(1, Some(1)), Err(RelocationError::MissingResolution));
    assert_eq!(find(1, None), Err(RelocationError::MissingResolution));
}

#[test]
fn library_symbols_are_reached_through_entries() {
    let mut flags = ValueFlags::empty();
    assert!(process_relocation(
        &mut flags,
        RelocationKind::Relative,
        ARM64_RELOC_BRANCH26,
        true
    ));
    assert!(flags.got && flags.plt && flags.dynamic_function && flags.direct);
    assert!(!process_relocation(&mut flags, RelocationKind::Relative, 0, false));
    let mut local = ValueFlags::empty();
    process_relocation(&mut local, RelocationKind::Relative, ARM64_RELOC_BRANCH26, false);
    assert!(local.direct && !local.plt && !local.got);
}

#[test]
fn local_symbols_resolve_to_sections() {
    let range = SymbolIdRange::input(SymbolId::new(10), 2);
    let sections = vec![SectionResolution { address: 0x3000 }, SectionResolution::none()];
    let (found, id) = get_resolution(1, range, None, Some(0), &sections).unwrap();
    assert_eq!((found.raw_value, id), (0x3000, SymbolId::new(11)));
    let merged = resolution(None, None);
    let (found, _) = get_resolution(1, range, Some(merged), Some(0), &sections).unwrap();
    assert_eq!(found.raw_value, 0x100);
    assert_eq!(
        get_resolution(1, range, None, Some(1), &sections),
        Err(RelocationError::MissingResolution)
    );
}

#[test]
fn symbol_table_entries_say_what_they_are() {
    let undefined = SymtabEntry {
        n_type: N_EXT,
        ..SymtabEntry::default_symtab_entry()
    };
    assert!(undefined.is_undefined() && !undefined.is_local());
    let absolute = SymtabEntry {
        n_type: N_EXT | N_ABS,
        n_value: 7,
        ..SymtabEntry::default_symtab_entry()
    };
    assert!(absolute.is_absolute() && !absolute.is_undefined());
    assert_eq!(absolute.value(), 7);
    let hidden = SymtabEntry {
        n_type: N_EXT | N_PEXT | 0x0e,
        ..SymtabEntry::default_symtab_entry()
    };
    assert!(hidden.is_hidden());
    assert_eq!(hidden.visibility(), Visibility::Hidden);
    let weak = SymtabEntry {
        n_type: N_EXT | 0x0e,
        n_desc: N_WEAK_DEF,
        ..SymtabEntry::default_symtab_entry()
    };
    assert!(weak.is_weak());
    assert!(SymtabEntry::default_symtab_entry().is_local());
    let name = RawSymbolName::parse(b"_main");
    assert_eq!(name.name(), b"_main");
    assert_eq!(name.version_name(), None);
    assert_eq!(FrameIndex::from_usize(41).as_usize(), 41);
}
