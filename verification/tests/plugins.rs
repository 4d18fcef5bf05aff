use libwild::hash_maps::NameMap;
use libwild::output_kind::RelocationModel;
use libwild::plugin_discovery::{
    bytes_come_before, bytes_hold, decimal_digits, discover_gcc_lto_plugin,
    discover_llvm_gold_plugin, join_path, llvm_candidates, parse_number, rustc_llvm_version,
};
use libwild::plugin_protocol::{
    call_outcome, first_lto_step, load_plugin, next_lto_step, prepare_save_directory,
    process_input, saved_outputs, transfer_vector, CallOutcome, ClaimOutcome, GeneratedInput,
    LtoStep, MessageLevel, OutputFileType, PluginFunctions, PluginLoad, SaveDirectory, Status, Tag,
};
use libwild::plugin_symbols::{
    check_wrap_names, get_symbols_v3, insert_versioned, real_name, to_text, AskedSymbol, DefiningFile, KnownSymbols,
    LtoInput, PluginSymbol, SymbolKind,
};
use libwild::symbol_id::{SymbolId, SymbolIdRange};
use libwild::symbol_resolution::Visibility;
use libwild::value_flags::ValueFlags;

fn functions() -> PluginFunctions {
    PluginFunctions {
        message: 100,
        register_claim_file_hook: 101,
        register_cleanup_hook: 102,
        register_all_symbols_read_hook: 103,
        get_api_version: 104,
        add_symbols: 105,
        get_symbols_v3: 106,
        add_input_file: 107,
        add_input_library: 108,
        unsupported_api_version: 109,
        get_view: 110,
        get_wrap_symbols: 111,
        get_input_file: 112,
        release_input_file: 113,
    }
}

#[test]
fn plugins_can_send_messages_first() {
    let entries = transfer_vector(
        functions(),
        &vec![1000, 1001],
        OutputFileType::new(true, RelocationModel::PositionIndependent),
        2000,
    );
    let expected: Vec<(u32, usize)> = vec![
        (11, 100),
        (4, 1000),
        (4, 1001),
        (1, 1),
        (3, 3),
        (15, 2000),
        (5, 101),
        (7, 102),
        (6, 103),
        (34, 104),
        (8, 105),
        (33, 105),
        (28, 106),
        (10, 107),
        (14, 108),
        (9, 109),
        (25, 109),
        (18, 110),
        (32, 111),
        (12, 112),
        (13, 113),
        (0, 0),
    ];
    let found: Vec<(u32, usize)> = entries
        .iter()
        .map(|entry| (entry.tag, entry.value))
        .collect();
    assert_eq!(found, expected);
    assert_eq!(Tag::GetView.as_raw(), 18);
    assert_eq!(OutputFileType::new(true, RelocationModel::Fixed).as_raw(), 1);
    assert_eq!(OutputFileType::new(false, RelocationModel::Fixed).as_raw(), 2);
}

#[test]
fn failures_are_reported_in_order() {
    assert_eq!(call_outcome(true, true, true), CallOutcome::CallbackError);
    assert_eq!(
        call_outcome(true, false, true),
        CallOutcome::CallErrorWithMessage
    );
    assert_eq!(call_outcome(true, false, false), CallOutcome::CallError);
    assert_eq!(call_outcome(false, false, true), CallOutcome::PluginMessage);
    assert_eq!(call_outcome(false, false, false), CallOutcome::Success);

    assert_eq!(
        process_input(true, Status::Success, false, false, 1, false),
        ClaimOutcome::Claimed
    );
    assert_eq!(
        process_input(true, Status::Success, false, false, 0, true),
        ClaimOutcome::Skipped
    );
    assert_eq!(
        process_input(true, Status::Success, false, false, 0, false),
        ClaimOutcome::NotClaimed
    );
    assert_eq!(
        process_input(true, Status::Failure, true, false, 1, false),
        ClaimOutcome::CallbackError
    );
    assert_eq!(
        process_input(true, Status::BadHandle, false, true, 1, false),
        ClaimOutcome::Failed {
            status: Status::BadHandle,
            with_message: true
        }
    );
    assert_eq!(
        process_input(false, Status::Success, false, false, 1, false),
        ClaimOutcome::MissingHook {
            with_message: false
        }
    );
    assert_eq!(
        process_input(true, Status::Success, false, true, 1, false),
        ClaimOutcome::PluginMessage
    );
    assert_eq!(Status::Success.to_result(), Ok(()));
    assert_eq!(Status::NoSyms.to_result(), Err(Status::NoSyms));
    assert_eq!(Status::Failure.name(), "Err");
    assert_eq!(load_plugin(false, true), PluginLoad::NoPath);
    assert_eq!(load_plugin(false, false), PluginLoad::Load);
    assert_eq!(load_plugin(true, true), PluginLoad::AlreadyLoaded);
}

#[test]
fn messages_have_levels() {
    assert_eq!(MessageLevel::from_raw(0), Some(MessageLevel::Info));
    assert_eq!(MessageLevel::from_raw(3), Some(MessageLevel::Fatal));
    assert_eq!(MessageLevel::from_raw(4), None);
    assert_eq!(MessageLevel::from_raw(-1), None);
    assert!(MessageLevel::Error.is_error() && !MessageLevel::Warning.is_error());
    assert_eq!(MessageLevel::Fatal.name(), "fatal error");
    assert_eq!(MessageLevel::Info.name(), "message");
}

#[test]
fn intermediate_code_is_compiled_in_steps() {
    assert_eq!(first_lto_step(false), LtoStep::Finished);
    let mut step = first_lto_step(true);
    let mut steps = vec![step];
    while step != LtoStep::Finished {
        step = next_lto_step(step, false);
        steps.push(step);
    }
    assert_eq!(steps.len(), 11);
    assert!(!steps.contains(&LtoStep::SaveOutputs));
    assert_eq!(next_lto_step(LtoStep::CallPlugin, true), LtoStep::SaveOutputs);
    let position = |wanted: LtoStep| steps.iter().position(|step| *step == wanted);
    assert!(position(LtoStep::RestoreNames) < position(LtoStep::AddOutputs));
    assert!(position(LtoStep::AddOutputs) < position(LtoStep::RedirectNames));
}

#[test]
fn generated_inputs_are_kept() {
    let (files, args) = saved_outputs(&vec![
        GeneratedInput::Lib(b"m"),
        GeneratedInput::File(b"/tmp/a.o"),
        GeneratedInput::Search(b"/opt/lib"),
    ]);
    assert_eq!(files, vec![&b"/tmp/a.o"[..]]);
    assert_eq!(args, b"-lm\n-L/opt/lib\n".to_vec());
    assert_eq!(prepare_save_directory(true, true), SaveDirectory::Replace);
    assert_eq!(prepare_save_directory(false, true), SaveDirectory::Refuse);
    assert_eq!(prepare_save_directory(false, false), SaveDirectory::Create);
}

#[test]
fn plugins_learn_what_became_of_symbols() {
    let mut names = NameMap::new();
    for (id, name) in [
        (1, &b"mine"[..]),
        (2, b"exported"),
        (3, b"used"),
        (4, b"object"),
        (5, b"shared"),
        (6, b"other_ir"),
        (7, b"wrapped"),
        (8, b"__real_wrapped"),
        (9, b"nowhere"),
    ] {
        names.insert(name.to_vec(), id);
    }
    let mut definitions: Vec<SymbolId> = (0..10).map(SymbolId::new).collect();
    definitions[9] = SymbolId::undefined();
    let mut flags = vec![ValueFlags::empty(); 10];
    flags[2].export_dynamic = true;
    flags[3].has_non_ir_ref = true;
    let mut files = vec![DefiningFile::LtoInput; 10];
    files[4] = DefiningFile::Object { is_dynamic: false };
    files[5] = DefiningFile::Object { is_dynamic: true };
    files[8] = DefiningFile::Object { is_dynamic: false };
    let wrap_names = vec![&b"wrapped"[..]];
    let mut versioned = NameMap::new();
    insert_versioned(&mut versioned, b"unknown", b"v1", SymbolId::new(4));
    insert_versioned(&mut versioned, b"unknown", b"v2", SymbolId::new(5));
    let known = KnownSymbols {
        names: &names,
        versioned: &versioned,
        definitions: &definitions,
        flags: &flags,
        files: &files,
        wrap_names: &wrap_names,
    };
    let asked = |name: &'static [u8], kind: SymbolKind| AskedSymbol {
        name,
        own_version: None,
        version: None,
        kind: Some(kind),
    };
    let (status, answers) = get_symbols_v3(
        &known,
        Some(SymbolIdRange::input(SymbolId::new(1), 3)),
        &vec![
            asked(b"mine", SymbolKind::Def),
            asked(b"exported", SymbolKind::WeakDef),
            asked(b"used", SymbolKind::Common),
            asked(b"object", SymbolKind::Undef),
            asked(b"shared", SymbolKind::Undef),
            asked(b"other_ir", SymbolKind::WeakUndef),
            asked(b"other_ir", SymbolKind::Def),
            asked(b"object", SymbolKind::Def),
            asked(b"wrapped", SymbolKind::Undef),
            asked(b"wrapped", SymbolKind::Def),
            asked(b"nowhere", SymbolKind::Undef),
            asked(b"unknown", SymbolKind::Undef),
            AskedSymbol {
                version: Some(b"v1"),
                ..asked(b"unknown", SymbolKind::Undef)
            },
            AskedSymbol {
                own_version: Some(b"v2"),
                ..asked(b"unknown", SymbolKind::Undef)
            },
            AskedSymbol {
                own_version: Some(b"v2"),
                version: Some(b"v1"),
                ..asked(b"unknown", SymbolKind::Undef)
            },
            AskedSymbol {
                version: Some(b"v3"),
                ..asked(b"unknown", SymbolKind::Undef)
            },
            AskedSymbol {
                version: Some(b"v1"),
                ..asked(b"object", SymbolKind::Undef)
            },
            AskedSymbol {
                version: Some(b"nv1"),
                ..asked(b"unknow", SymbolKind::Undef)
            },
        ],
    );
    assert_eq!(status, Status::Success);
    assert_eq!(
        answers,
        vec![3, 9, 2, 7, 8, 6, 5, 4, 7, 4, 1, 1, 7, 8, 7, 1, 1, 1]
    );
    let (status, answers) = get_symbols_v3(&known, None, &vec![asked(b"mine", SymbolKind::Def)]);
    assert_eq!(status, Status::NoSyms);
    assert!(answers.is_empty());
}

#[test]
fn texts_replace_what_is_not_utf8() {
    assert_eq!(to_text(b"abc"), b"abc".to_vec());
    assert_eq!(to_text(b"a\xffb"), "a\u{fffd}b".as_bytes().to_vec());
    assert_eq!(real_name(b"malloc"), b"__real_malloc".to_vec());
    assert_eq!(real_name(b"\xff"), "__real_\u{fffd}".as_bytes().to_vec());
    assert!(check_wrap_names(&vec![&b"malloc"[..], b"free"]));
    assert!(!check_wrap_names(&vec![&b"mal\0loc"[..]]));
}

#[test]
fn claimed_files_have_symbols() {
    let symbol = PluginSymbol {
        name: b"first",
        version: None,
        visibility: Visibility::Hidden,
        kind: SymbolKind::from_raw(1),
        size: 4,
    };
    let input = LtoInput::new(
        SymbolIdRange::input(SymbolId::new(5), 2),
        vec![
            symbol,
            PluginSymbol {
                name: b"second",
                kind: SymbolKind::from_raw(9),
                ..symbol
            },
        ],
        true,
        false,
    );
    assert!(input.enabled && input.is_optional());
    assert_eq!(input.symbol_name(SymbolId::new(6)), b"second");
    assert_eq!(input.symbol_visibility(SymbolId::new(5)), Visibility::Hidden);
    let ids: Vec<SymbolId> = input.symbols_iter().iter().map(|(id, _)| *id).collect();
    assert_eq!(ids, vec![SymbolId::new(5), SymbolId::new(6)]);
    assert!(symbol.is_definition());
    assert!(!input.symbols[1].is_definition());
    assert_eq!(SymbolKind::WeakDef.name(), "WeakDef");
    assert_eq!(SymbolKind::from_raw(5), None);
}

#[test]
fn newer_versions_of_llvm_come_first() {
    let candidates = llvm_candidates(
        Some(b"/opt/rust"),
        Some(b"/usr/lib64/"),
        &vec![&b"llvm-14"[..], b"gcc", b"llvm-9", b"llvm-17"],
    );
    let expected: Vec<Vec<u8>> = vec![
        b"/opt/rust/lib/LLVMgold.so".to_vec(),
        b"/usr/lib64/LLVMgold.so".to_vec(),
        b"/usr/lib/llvm-9/lib/LLVMgold.so".to_vec(),
        b"/usr/lib/llvm-17/lib/LLVMgold.so".to_vec(),
        b"/usr/lib/llvm-14/lib/LLVMgold.so".to_vec(),
    ];
    assert_eq!(candidates, expected);
    let files = vec![false, true, true, true, true];
    assert_eq!(
        discover_llvm_gold_plugin(&candidates, &files, Some(14)),
        Some(4)
    );
    assert_eq!(
        discover_llvm_gold_plugin(&candidates, &files, Some(99)),
        Some(1)
    );
    assert_eq!(discover_llvm_gold_plugin(&candidates, &files, None), Some(1));
    assert_eq!(
        discover_llvm_gold_plugin(&candidates, &vec![false; 5], Some(14)),
        None
    );
    assert_eq!(discover_gcc_lto_plugin(&vec![false, true]), Some(1));
    assert_eq!(discover_gcc_lto_plugin(&vec![false, false]), None);
}

#[test]
fn llvm_version_is_read() {
    let text = b"rustc 1.80.0\nhost: x86_64\r\nLLVM version: x.1\nLLVM version: 18.1.7";
    assert_eq!(rustc_llvm_version(text), Some(18));
    assert_eq!(rustc_llvm_version(b"LLVM version: 17\r\n"), Some(17));
    assert_eq!(rustc_llvm_version(b"rustc 1.80.0"), None);
    assert_eq!(parse_number(b"+12"), Some(12));
    assert_eq!(parse_number(b"+"), None);
    assert_eq!(parse_number(b""), None);
    assert_eq!(parse_number(b"4294967295"), Some(u32::MAX));
    assert_eq!(parse_number(b"4294967296"), None);
    assert_eq!(parse_number(b"1x"), None);
    assert_eq!(decimal_digits(1807), b"1807".to_vec());
    assert_eq!(decimal_digits(0), b"0".to_vec());
    assert!(bytes_hold(b"/usr/lib/llvm-17/", b"llvm-17"));
    assert!(!bytes_hold(b"/usr/lib/llvm-1", b"llvm-17"));
    assert!(bytes_come_before(b"llvm-17", b"llvm-9"));
    assert!(!bytes_come_before(b"a", b"a"));
    assert_eq!(join_path(b"/a", b"b"), b"/a/b".to_vec());
}
