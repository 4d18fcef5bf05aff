//! How the linker and a linker plugin talk to each other.
use crate::bytes::append_bytes;
use crate::output_kind::RelocationModel;
use vstd::prelude::*;

verus! {

/// The version of the protocol.
pub const API_VERSION: usize = 1;

/// What an entry of the list that a plugin is given is about.
#[derive(Clone, Copy, Debug, PartialEq, Eq, Structural)]
pub enum Tag {
    Null,
    ApiVersion,
    LinkerOutput,
    PluginOption,
    RegisterClaimFileHook,
    RegisterAllSymbolsReadHook,
    RegisterCleanupHook,
    AddSymbols,
    GetSymbols,
    AddInputFile,
    Message,
    GetInputFile,
    ReleaseInputFile,
    AddInputLibrary,
    OutputName,
    GetView,
    GetSymbolsV2,
    GetSymbolsV3,
    GetWrapSymbols,
    AddSymbolsV2,
    GetApiVersion,
}

impl Tag {
    pub open spec fn number(self) -> u32 {
        match self {
            Tag::Null => 0,
            Tag::ApiVersion => 1,
            Tag::LinkerOutput => 3,
            Tag::PluginOption => 4,
            Tag::RegisterClaimFileHook => 5,
            Tag::RegisterAllSymbolsReadHook => 6,
            Tag::RegisterCleanupHook => 7,
            Tag::AddSymbols => 8,
            Tag::GetSymbols => 9,
            Tag::AddInputFile => 10,
            Tag::Message => 11,
            Tag::GetInputFile => 12,
            Tag::ReleaseInputFile => 13,
            Tag::AddInputLibrary => 14,
            Tag::OutputName => 15,
            Tag::GetView => 18,
            Tag::GetSymbolsV2 => 25,
            Tag::GetSymbolsV3 => 28,
            Tag::GetWrapSymbols => 32,
            Tag::AddSymbolsV2 => 33,
            Tag::GetApiVersion => 34,
        }
    }

    /// The number that plugins know the tag by.
    pub fn as_raw(self) -> (raw: u32)
        ensures
            raw == self.number(),
    {
        match self {
            Tag::Null => 0,
            Tag::ApiVersion => 1,
            Tag::LinkerOutput => 3,
            Tag::PluginOption => 4,
            Tag::RegisterClaimFileHook => 5,
            Tag::RegisterAllSymbolsReadHook => 6,
            Tag::RegisterCleanupHook => 7,
            Tag::AddSymbols => 8,
            Tag::GetSymbols => 9,
            Tag::AddInputFile => 10,
            Tag::Message => 11,
            Tag::GetInputFile => 12,
            Tag::ReleaseInputFile => 13,
            Tag::AddInputLibrary => 14,
            Tag::OutputName => 15,
            Tag::GetView => 18,
            Tag::GetSymbolsV2 => 25,
            Tag::GetSymbolsV3 => 28,
            Tag::GetWrapSymbols => 32,
            Tag::AddSymbolsV2 => 33,
            Tag::GetApiVersion => 34,
        }
    }
}

/// An entry of the list that a plugin is given.
#[derive(Clone, Copy, Debug, PartialEq, Eq, Structural)]
pub struct LdPluginTv {
    pub tag: u32,
    /// A number or an address, depending on the tag.
    pub value: usize,
}

impl LdPluginTv {
    pub open spec fn of(tag: Tag, value: usize) -> LdPluginTv {
        LdPluginTv { tag: tag.number(), value }
    }

    pub fn value(tag: Tag, value: usize) -> (entry: LdPluginTv)
        ensures
            entry == LdPluginTv::of(tag, value),
    {
        LdPluginTv { tag: tag.as_raw(), value }
    }
}

/// The addresses of the functions that a plugin can call.
#[derive(Clone, Copy, Debug, PartialEq, Eq, Structural)]
pub struct PluginFunctions {
    pub message: usize,
    pub register_claim_file_hook: usize,
    pub register_cleanup_hook: usize,
    pub register_all_symbols_read_hook: usize,
    pub get_api_version: usize,
    pub add_symbols: usize,
    pub get_symbols_v3: usize,
    pub add_input_file: usize,
    pub add_input_library: usize,
    pub unsupported_api_version: usize,
    pub get_view: usize,
    pub get_wrap_symbols: usize,
    pub get_input_file: usize,
    pub release_input_file: usize,
}

/// The kind of file that is linked.
#[derive(Clone, Copy, Debug, PartialEq, Eq, Structural)]
pub enum OutputFileType {
    Exec,
    Dyn,
    Pie,
}

impl OutputFileType {
    pub open spec fn number(self) -> usize {
        match self {
            OutputFileType::Exec => 1,
            OutputFileType::Dyn => 2,
            OutputFileType::Pie => 3,
        }
    }

    pub open spec fn spec_new(executable: bool, model: RelocationModel) -> OutputFileType {
        if !executable {
            OutputFileType::Dyn
        } else {
            match model {
                RelocationModel::Fixed => OutputFileType::Exec,
                RelocationModel::PositionIndependent => OutputFileType::Pie,
            }
        }
    }

    /// The kind of file that the arguments ask for.
    pub fn new(should_output_executable: bool, relocation_model: RelocationModel) -> (ty:
        OutputFileType)
        ensures
            ty == OutputFileType::spec_new(should_output_executable, relocation_model),
    {
        if should_output_executable {
            match relocation_model {
                RelocationModel::Fixed => OutputFileType::Exec,
                RelocationModel::PositionIndependent => OutputFileType::Pie,
            }
        } else {
            OutputFileType::Dyn
        }
    }

    /// The number that plugins know the kind by.
    pub fn as_raw(self) -> (raw: usize)
        ensures
            raw == self.number(),
    {
        match self {
            OutputFileType::Exec => 1,
            OutputFileType::Dyn => 2,
            OutputFileType::Pie => 3,
        }
    }
}

/// The entries for options. The addresses of the options are given.
pub open spec fn option_entries(options: Seq<usize>) -> Seq<LdPluginTv> {
    Seq::new(options.len(), |i: int| LdPluginTv::of(Tag::PluginOption, options[i]))
}

/// The entries after the options.
pub open spec fn other_entries(
    functions: PluginFunctions,
    output_type: OutputFileType,
    output_name: usize,
) -> Seq<LdPluginTv> {
    seq![
        LdPluginTv::of(Tag::ApiVersion, API_VERSION),
        LdPluginTv::of(Tag::LinkerOutput, output_type.number()),
        LdPluginTv::of(Tag::OutputName, output_name),
        LdPluginTv::of(Tag::RegisterClaimFileHook, functions.register_claim_file_hook),
        LdPluginTv::of(Tag::RegisterCleanupHook, functions.register_cleanup_hook),
        LdPluginTv::of(Tag::RegisterAllSymbolsReadHook, functions.register_all_symbols_read_hook),
        LdPluginTv::of(Tag::GetApiVersion, functions.get_api_version),
        LdPluginTv::of(Tag::AddSymbols, functions.add_symbols),
        LdPluginTv::of(Tag::AddSymbolsV2, functions.add_symbols),
        LdPluginTv::of(Tag::GetSymbolsV3, functions.get_symbols_v3),
        LdPluginTv::of(Tag::AddInputFile, functions.add_input_file),
        LdPluginTv::of(Tag::AddInputLibrary, functions.add_input_library),
        LdPluginTv::of(Tag::GetSymbols, functions.unsupported_api_version),
        LdPluginTv::of(Tag::GetSymbolsV2, functions.unsupported_api_version),
        LdPluginTv::of(Tag::GetView, functions.get_view),
        LdPluginTv::of(Tag::GetWrapSymbols, functions.get_wrap_symbols),
        LdPluginTv::of(Tag::GetInputFile, functions.get_input_file),
        LdPluginTv::of(Tag::ReleaseInputFile, functions.release_input_file),
        LdPluginTv::of(Tag::Null, 0),
    ]
}

/// The list that a plugin is given. The function for messages comes first, so that the plugin can
/// complain about what follows, and the list ends with an entry that says so.
pub fn transfer_vector(
    functions: PluginFunctions,
    options: &Vec<usize>,
    output_type: OutputFileType,
    output_name: usize,
) -> (entries: Vec<LdPluginTv>)
    ensures
        entries@ == seq![LdPluginTv::of(Tag::Message, functions.message)] + option_entries(options@)
            + other_entries(functions, output_type, output_name),
{
    let mut entries: Vec<LdPluginTv> = Vec::new();
    entries.push(LdPluginTv::value(Tag::Message, functions.message));
    let ghost first = seq![LdPluginTv::of(Tag::Message, functions.message)];
    assert(entries@ =~= first + option_entries(options@).take(0));
    let mut i: usize = 0;
    while i < options.len()
        invariant
            i <= options@.len(),
            entries@ == first + option_entries(options@).take(i as int),
        decreases options@.len() - i,
    {
        entries.push(LdPluginTv::value(Tag::PluginOption, options[i]));
        assert(entries@ =~= first + option_entries(options@).take(i + 1));
        i = i + 1;
    }
    assert(option_entries(options@).take(options@.len() as int) =~= option_entries(options@));
    let ghost so_far = entries@;
    entries.push(LdPluginTv::value(Tag::ApiVersion, API_VERSION));
    entries.push(LdPluginTv::value(Tag::LinkerOutput, output_type.as_raw()));
    entries.push(LdPluginTv::value(Tag::OutputName, output_name));
    entries.push(LdPluginTv::value(Tag::RegisterClaimFileHook, functions.register_claim_file_hook));
    entries.push(LdPluginTv::value(Tag::RegisterCleanupHook, functions.register_cleanup_hook));
    entries.push(
        LdPluginTv::value(
            Tag::RegisterAllSymbolsReadHook,
            functions.register_all_symbols_read_hook,
        ),
    );
    entries.push(LdPluginTv::value(Tag::GetApiVersion, functions.get_api_version));
    entries.push(LdPluginTv::value(Tag::AddSymbols, functions.add_symbols));
    entries.push(LdPluginTv::value(Tag::AddSymbolsV2, functions.add_symbols));
    entries.push(LdPluginTv::value(Tag::GetSymbolsV3, functions.get_symbols_v3));
    entries.push(LdPluginTv::value(Tag::AddInputFile, functions.add_input_file));
    entries.push(LdPluginTv::value(Tag::AddInputLibrary, functions.add_input_library));
    entries.push(LdPluginTv::value(Tag::GetSymbols, functions.unsupported_api_version));
    entries.push(LdPluginTv::value(Tag::GetSymbolsV2, functions.unsupported_api_version));
    entries.push(LdPluginTv::value(Tag::GetView, functions.get_view));
    entries.push(LdPluginTv::value(Tag::GetWrapSymbols, functions.get_wrap_symbols));
    entries.push(LdPluginTv::value(Tag::GetInputFile, functions.get_input_file));
    entries.push(LdPluginTv::value(Tag::ReleaseInputFile, functions.release_input_file));
    entries.push(LdPluginTv::value(Tag::Null, 0));
    assert(entries@ =~= so_far + other_entries(functions, output_type, output_name));
    entries
}

/// How serious a message from a plugin is.
#[derive(Clone, Copy, Debug, PartialEq, Eq, Structural)]
pub enum MessageLevel {
    Info,
    Warning,
    Error,
    Fatal,
}

impl MessageLevel {
    /// The level with the given number.
    pub fn from_raw(level: i32) -> (found: Option<MessageLevel>)
        ensures
            found == (if level == 0 {
                Some(MessageLevel::Info)
            } else if level == 1 {
                Some(MessageLevel::Warning)
            } else if level == 2 {
                Some(MessageLevel::Error)
            } else if level == 3 {
                Some(MessageLevel::Fatal)
            } else {
                None::<MessageLevel>
            }),
    {
        if level == 0 {
            Some(MessageLevel::Info)
        } else if level == 1 {
            Some(MessageLevel::Warning)
        } else if level == 2 {
            Some(MessageLevel::Error)
        } else if level == 3 {
            Some(MessageLevel::Fatal)
        } else {
            None
        }
    }

    /// Whether the link fails.
    pub fn is_error(self) -> (error: bool)
        ensures
            error == (self is Error || self is Fatal),
    {
        match self {
            MessageLevel::Error | MessageLevel::Fatal => true,
            MessageLevel::Info | MessageLevel::Warning => false,
        }
    }

    pub open spec fn spec_name(self) -> Seq<char> {
        match self {
            MessageLevel::Info => "message"@,
            MessageLevel::Warning => "warning"@,
            MessageLevel::Error => "error"@,
            MessageLevel::Fatal => "fatal error"@,
        }
    }

    /// What the level is called.
    pub fn name(self) -> (name: &'static str)
        ensures
            name@ == self.spec_name(),
    {
        match self {
            MessageLevel::Info => "message",
            MessageLevel::Warning => "warning",
            MessageLevel::Error => "error",
            MessageLevel::Fatal => "fatal error",
        }
    }
}

/// What a plugin or the linker answers.
#[derive(Clone, Copy, Debug, PartialEq, Eq, Structural)]
pub enum Status {
    Success,
    NoSyms,
    BadHandle,
    Failure,
}

impl Status {
    /// The answer as a result.
    pub fn to_result(self) -> (result: Result<(), Status>)
        ensures
            result == (if self is Success {
                Ok::<(), Status>(())
            } else {
                Err::<(), Status>(self)
            }),
    {
        match self {
            Status::Success => Ok(()),
            _ => Err(self),
        }
    }

    pub open spec fn spec_name(self) -> Seq<char> {
        match self {
            Status::Success => "Ok"@,
            Status::NoSyms => "NoSyms"@,
            Status::BadHandle => "BadHandle"@,
            Status::Failure => "Err"@,
        }
    }

    /// What the answer is called.
    pub fn name(self) -> (name: &'static str)
        ensures
            name@ == self.spec_name(),
    {
        match self {
            Status::Success => "Ok",
            Status::NoSyms => "NoSyms",
            Status::BadHandle => "BadHandle",
            Status::Failure => "Err",
        }
    }
}

/// What is reported after a call into a plugin.
#[derive(Clone, Copy, Debug, PartialEq, Eq, Structural)]
pub enum CallOutcome {
    Success,
    /// The failure of a function that the plugin called.
    CallbackError,
    /// The failure of the call, with the plugin's message.
    CallErrorWithMessage,
    CallError,
    /// The plugin's message.
    PluginMessage,
}

/// What is reported after a call into a plugin. The failure of a function that the plugin called is
/// the cause of the plugin's own failure, so it comes first. A message is reported even if the call
/// succeeded.
pub fn call_outcome(call_failed: bool, callback_failed: bool, has_message: bool) -> (outcome:
    CallOutcome)
    ensures
        outcome == (if call_failed {
            if callback_failed {
                CallOutcome::CallbackError
            } else if has_message {
                CallOutcome::CallErrorWithMessage
            } else {
                CallOutcome::CallError
            }
        } else if has_message {
            CallOutcome::PluginMessage
        } else {
            CallOutcome::Success
        }),
{
    if call_failed {
        if callback_failed {
            CallOutcome::CallbackError
        } else if has_message {
            CallOutcome::CallErrorWithMessage
        } else {
            CallOutcome::CallError
        }
    } else if has_message {
        CallOutcome::PluginMessage
    } else {
        CallOutcome::Success
    }
}

/// What came of offering a file to a plugin.
#[derive(Clone, Copy, Debug, PartialEq, Eq, Structural)]
pub enum ClaimOutcome {
    /// The plugin compiles it.
    Claimed,
    /// It is left out.
    Skipped,
    /// Nothing can be done with it.
    NotClaimed,
    /// The failure of a function that the plugin called.
    CallbackError,
    /// The plugin has not said how to offer files to it.
    MissingHook { with_message: bool },
    /// The plugin failed.
    Failed { status: Status, with_message: bool },
    /// The plugin succeeded but complained.
    PluginMessage,
}

/// What came of offering a file to a plugin.
pub open spec fn spec_process_input(
    has_hook: bool,
    status: Status,
    callback_failed: bool,
    has_message: bool,
    claimed: i32,
    archive_semantics: bool,
) -> ClaimOutcome {
    let failed = !has_hook || !(status is Success) || has_message;
    if failed && callback_failed {
        ClaimOutcome::CallbackError
    } else if !has_hook {
        ClaimOutcome::MissingHook { with_message: has_message }
    } else if !(status is Success) {
        ClaimOutcome::Failed { status, with_message: has_message }
    } else if has_message {
        ClaimOutcome::PluginMessage
    } else if claimed == 1 {
        ClaimOutcome::Claimed
    } else if archive_semantics {
        ClaimOutcome::Skipped
    } else {
        ClaimOutcome::NotClaimed
    }
}

/// What came of offering a file to a plugin. Files of archives are left out if the plugin does not
/// claim them. `has_message` says whether the plugin complained, and `callback_failed` whether a
/// function that it called failed.
pub fn process_input(
    has_hook: bool,
    status: Status,
    callback_failed: bool,
    has_message: bool,
    claimed: i32,
    archive_semantics: bool,
) -> (outcome: ClaimOutcome)
    ensures
        outcome == spec_process_input(
            has_hook,
            status,
            callback_failed,
            has_message,
            claimed,
            archive_semantics,
        ),
{
    let succeeded: bool = match status {
        Status::Success => true,
        _ => false,
    };
    if (!has_hook || !succeeded || has_message) && callback_failed {
        ClaimOutcome::CallbackError
    } else if !has_hook {
        ClaimOutcome::MissingHook { with_message: has_message }
    } else if !succeeded {
        ClaimOutcome::Failed { status, with_message: has_message }
    } else if has_message {
        ClaimOutcome::PluginMessage
    } else if claimed == 1 {
        ClaimOutcome::Claimed
    } else if archive_semantics {
        ClaimOutcome::Skipped
    } else {
        ClaimOutcome::NotClaimed
    }
}

/// What is done to get a plugin.
#[derive(Clone, Copy, Debug, PartialEq, Eq, Structural)]
pub enum PluginLoad {
    AlreadyLoaded,
    Load,
    /// Nobody has said where the plugin is.
    NoPath,
}

/// What is done to get a plugin.
pub fn load_plugin(is_loaded: bool, path_is_empty: bool) -> (load: PluginLoad)
    ensures
        load == (if is_loaded {
            PluginLoad::AlreadyLoaded
        } else if path_is_empty {
            PluginLoad::NoPath
        } else {
            PluginLoad::Load
        }),
{
    if is_loaded {
        PluginLoad::AlreadyLoaded
    } else if path_is_empty {
        PluginLoad::NoPath
    } else {
        PluginLoad::Load
    }
}

/// What is done after all symbols have been read.
#[derive(Clone, Copy, Debug, PartialEq, Eq, Structural)]
pub enum LtoStep {
    MarkWrappedSymbols,
    MarkExportedSymbols,
    CallPlugin,
    /// Keep what the plugin generated, if the user asked for that.
    SaveOutputs,
    LoadOutputs,
    /// Names mean what they meant before references were redirected.
    RestoreNames,
    AddOutputs,
    RedirectNames,
    ResolveSymbols,
    DisableInputs,
    ResolveAlternatives,
    Finished,
}

/// The first step. If no file of intermediate code is used, there is nothing to compile.
pub fn first_lto_step(has_loaded_lto_input: bool) -> (step: LtoStep)
    ensures
        step == (if has_loaded_lto_input {
            LtoStep::MarkWrappedSymbols
        } else {
            LtoStep::Finished
        }),
{
    if has_loaded_lto_input {
        LtoStep::MarkWrappedSymbols
    } else {
        LtoStep::Finished
    }
}

/// The step after another.
pub open spec fn spec_after_lto_step(step: LtoStep, save_outputs: bool) -> LtoStep {
    match step {
        LtoStep::MarkWrappedSymbols => LtoStep::MarkExportedSymbols,
        LtoStep::MarkExportedSymbols => LtoStep::CallPlugin,
        LtoStep::CallPlugin => if save_outputs {
            LtoStep::SaveOutputs
        } else {
            LtoStep::LoadOutputs
        },
        LtoStep::SaveOutputs => LtoStep::LoadOutputs,
        LtoStep::LoadOutputs => LtoStep::RestoreNames,
        LtoStep::RestoreNames => LtoStep::AddOutputs,
        LtoStep::AddOutputs => LtoStep::RedirectNames,
        LtoStep::RedirectNames => LtoStep::ResolveSymbols,
        LtoStep::ResolveSymbols => LtoStep::DisableInputs,
        LtoStep::DisableInputs => LtoStep::ResolveAlternatives,
        LtoStep::ResolveAlternatives => LtoStep::Finished,
        LtoStep::Finished => LtoStep::Finished,
    }
}

/// The step after one that succeeded.
pub fn next_lto_step(step: LtoStep, save_outputs: bool) -> (next: LtoStep)
    ensures
        next == spec_after_lto_step(step, save_outputs),
{
    match step {
        LtoStep::MarkWrappedSymbols => LtoStep::MarkExportedSymbols,
        LtoStep::MarkExportedSymbols => LtoStep::CallPlugin,
        LtoStep::CallPlugin => {
            if save_outputs {
                LtoStep::SaveOutputs
            } else {
                LtoStep::LoadOutputs
            }
        },
        LtoStep::SaveOutputs => LtoStep::LoadOutputs,
        LtoStep::LoadOutputs => LtoStep::RestoreNames,
        LtoStep::RestoreNames => LtoStep::AddOutputs,
        LtoStep::AddOutputs => LtoStep::RedirectNames,
        LtoStep::RedirectNames => LtoStep::ResolveSymbols,
        LtoStep::ResolveSymbols => LtoStep::DisableInputs,
        LtoStep::DisableInputs => LtoStep::ResolveAlternatives,
        LtoStep::ResolveAlternatives => LtoStep::Finished,
        LtoStep::Finished => LtoStep::Finished,
    }
}

/// An input that a plugin has generated or asked for.
#[derive(Clone, Copy, Debug)]
pub enum GeneratedInput<'data> {
    File(&'data [u8]),
    Lib(&'data [u8]),
    Search(&'data [u8]),
}

/// The arguments that stand for the first `count` inputs that are not files.
pub open spec fn extra_args(inputs: Seq<GeneratedInput>, count: int) -> Seq<u8>
    decreases count,
{
    if count <= 0 {
        Seq::empty()
    } else {
        let before = extra_args(inputs, count - 1);
        match inputs[count - 1] {
            GeneratedInput::File(_) => before,
            GeneratedInput::Lib(name) => before + seq![0x2du8, 0x6c] + name@ + seq![0x0au8],
            GeneratedInput::Search(path) => before + seq![0x2du8, 0x4c] + path@ + seq![0x0au8],
        }
    }
}

/// Those of the first `count` inputs that are files.
pub open spec fn generated_files<'data>(inputs: Seq<GeneratedInput<'data>>, count: int) -> Seq<
    &'data [u8],
>
    decreases count,
{
    if count <= 0 {
        Seq::empty()
    } else {
        let before = generated_files(inputs, count - 1);
        match inputs[count - 1] {
            GeneratedInput::File(path) => before.push(path),
            _ => before,
        }
    }
}

/// What is kept of the inputs that a plugin has generated: files to copy, and arguments.
pub fn saved_outputs<'data>(inputs: &Vec<GeneratedInput<'data>>) -> (saved: (
    Vec<&'data [u8]>,
    Vec<u8>,
))
    ensures
        saved.0@ == generated_files(inputs@, inputs@.len() as int),
        saved.1@ == extra_args(inputs@, inputs@.len() as int),
{
    let mut files: Vec<&'data [u8]> = Vec::new();
    let mut args: Vec<u8> = Vec::new();
    let mut i: usize = 0;
    while i < inputs.len()
        invariant
            i <= inputs@.len(),
            files@ == generated_files(inputs@, i as int),
            args@ == extra_args(inputs@, i as int),
        decreases inputs@.len() - i,
    {
        match inputs[i] {
            GeneratedInput::File(path) => {
                files.push(path);
            },
            GeneratedInput::Lib(name) => {
                args.push(0x2d);
                args.push(0x6c);
                append_bytes(&mut args, name);
                args.push(0x0a);
                assert(args@ =~= extra_args(inputs@, i + 1));
            },
            GeneratedInput::Search(path) => {
                args.push(0x2d);
                args.push(0x4c);
                append_bytes(&mut args, path);
                args.push(0x0a);
                assert(args@ =~= extra_args(inputs@, i + 1));
            },
        }
        i = i + 1;
    }
    (files, args)
}

/// What is done with the directory that generated inputs are kept in.
#[derive(Clone, Copy, Debug, PartialEq, Eq, Structural)]
pub enum SaveDirectory {
    /// It holds what an earlier link has kept, and is emptied.
    Replace,
    /// It holds something else, and is left alone.
    Refuse,
    Create,
}

/// What is done with the directory that generated inputs are kept in.
pub fn prepare_save_directory(args_file_exists: bool, directory_exists: bool) -> (action:
    SaveDirectory)
    ensures
        action == (if args_file_exists {
            SaveDirectory::Replace
        } else if directory_exists {
            SaveDirectory::Refuse
        } else {
            SaveDirectory::Create
        }),
{
    if args_file_exists {
        SaveDirectory::Replace
    } else if directory_exists {
        SaveDirectory::Refuse
    } else {
        SaveDirectory::Create
    }
}

} // verus!
