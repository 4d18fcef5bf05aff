//! The steps of a link, and what is done when one of them fails.
use crate::layout_queries::Layout;
use vstd::prelude::*;

verus! {

/// What the linker is about to do.
#[derive(Clone, Copy, Debug, PartialEq, Eq, Structural)]
pub enum LinkStep {
    InitPlugin,
    LoadInputs,
    /// Keep copies of the inputs, if the user asked for that.
    SaveInputs,
    /// Apply what linker scripts say about the output.
    ApplyScripts,
    /// Check the base address, and create the output and its sections.
    CreateOutput,
    LoadAuxiliaryFiles,
    AddInputs,
    ApplyWrappedSymbols,
    ResolveSymbols,
    ResolveAlternatives,
    /// Have the plugin compile the inputs that it claimed.
    PluginCodegen,
    LoadGeneratedInputs,
    IntegrateGeneratedInputs,
    ApplyRustVersionScript,
    BuildLayoutRules,
    ResolveSections,
    ComputeLayout,
    SetOutputSize,
    WriteGcStats,
    PlanIncremental,
    WriteOutput,
    RunDiff,
    FinishIncremental,
    /// Check that no input has changed since it was read.
    VerifyInputs,
    WriteDependencyFile,
    WriteTrace,
    Finished,
}

/// What the arguments and the inputs ask for.
#[derive(Clone, Copy, Debug, PartialEq, Eq, Structural)]
pub struct LinkFacts {
    /// A plugin has been initialised because it claimed an input.
    pub plugin_initialised: bool,
    /// The plugin has generated inputs.
    pub plugin_generated: bool,
    pub rust_version_script: bool,
    pub incremental: bool,
    pub dependency_file: bool,
    pub trace_file: bool,
}

/// How far a link has come.
#[derive(Clone, Copy, Debug, PartialEq, Eq, Structural)]
pub struct LinkState {
    pub step: LinkStep,
    /// The step whose failure is to be reported.
    pub failed: Option<LinkStep>,
}

/// The position of a step among the steps.
pub open spec fn rank(step: LinkStep) -> nat {
    match step {
        LinkStep::InitPlugin => 0,
        LinkStep::LoadInputs => 1,
        LinkStep::SaveInputs => 2,
        LinkStep::ApplyScripts => 3,
        LinkStep::CreateOutput => 4,
        LinkStep::LoadAuxiliaryFiles => 5,
        LinkStep::AddInputs => 6,
        LinkStep::ApplyWrappedSymbols => 7,
        LinkStep::ResolveSymbols => 8,
        LinkStep::ResolveAlternatives => 9,
        LinkStep::PluginCodegen => 10,
        LinkStep::LoadGeneratedInputs => 11,
        LinkStep::IntegrateGeneratedInputs => 12,
        LinkStep::ApplyRustVersionScript => 13,
        LinkStep::BuildLayoutRules => 14,
        LinkStep::ResolveSections => 15,
        LinkStep::ComputeLayout => 16,
        LinkStep::SetOutputSize => 17,
        LinkStep::WriteGcStats => 18,
        LinkStep::PlanIncremental => 19,
        LinkStep::WriteOutput => 20,
        LinkStep::RunDiff => 21,
        LinkStep::FinishIncremental => 22,
        LinkStep::VerifyInputs => 23,
        LinkStep::WriteDependencyFile => 24,
        LinkStep::WriteTrace => 25,
        LinkStep::Finished => 26,
    }
}

/// The step after the version script of the Rust compiler, if there is one, has its turn.
pub open spec fn after_plugin(facts: LinkFacts) -> LinkStep {
    if facts.rust_version_script {
        LinkStep::ApplyRustVersionScript
    } else {
        LinkStep::BuildLayoutRules
    }
}

/// The step after the inputs have been found unchanged.
pub open spec fn after_verification(facts: LinkFacts) -> LinkStep {
    if facts.dependency_file {
        LinkStep::WriteDependencyFile
    } else {
        after_dependency_file(facts)
    }
}

/// The step after the dependency file has been written.
pub open spec fn after_dependency_file(facts: LinkFacts) -> LinkStep {
    if facts.trace_file {
        LinkStep::WriteTrace
    } else {
        LinkStep::Finished
    }
}

/// The step after one that succeeded.
pub open spec fn following(step: LinkStep, facts: LinkFacts) -> LinkStep {
    match step {
        LinkStep::InitPlugin => LinkStep::LoadInputs,
        LinkStep::LoadInputs => LinkStep::SaveInputs,
        LinkStep::SaveInputs => LinkStep::ApplyScripts,
        LinkStep::ApplyScripts => LinkStep::CreateOutput,
        LinkStep::CreateOutput => LinkStep::LoadAuxiliaryFiles,
        LinkStep::LoadAuxiliaryFiles => LinkStep::AddInputs,
        LinkStep::AddInputs => LinkStep::ApplyWrappedSymbols,
        LinkStep::ApplyWrappedSymbols => LinkStep::ResolveSymbols,
        LinkStep::ResolveSymbols => LinkStep::ResolveAlternatives,
        LinkStep::ResolveAlternatives => if facts.plugin_initialised {
            LinkStep::PluginCodegen
        } else {
            after_plugin(facts)
        },
        LinkStep::PluginCodegen => if facts.plugin_generated {
            LinkStep::LoadGeneratedInputs
        } else {
            after_plugin(facts)
        },
        LinkStep::LoadGeneratedInputs => LinkStep::IntegrateGeneratedInputs,
        LinkStep::IntegrateGeneratedInputs => after_plugin(facts),
        LinkStep::ApplyRustVersionScript => LinkStep::BuildLayoutRules,
        LinkStep::BuildLayoutRules => LinkStep::ResolveSections,
        LinkStep::ResolveSections => LinkStep::ComputeLayout,
        LinkStep::ComputeLayout => LinkStep::SetOutputSize,
        LinkStep::SetOutputSize => LinkStep::WriteGcStats,
        LinkStep::WriteGcStats => if facts.incremental {
            LinkStep::PlanIncremental
        } else {
            LinkStep::WriteOutput
        },
        LinkStep::PlanIncremental => LinkStep::WriteOutput,
        LinkStep::WriteOutput => LinkStep::RunDiff,
        LinkStep::RunDiff => if facts.incremental {
            LinkStep::FinishIncremental
        } else {
            LinkStep::VerifyInputs
        },
        LinkStep::FinishIncremental => LinkStep::VerifyInputs,
        LinkStep::VerifyInputs => after_verification(facts),
        LinkStep::WriteDependencyFile => after_dependency_file(facts),
        LinkStep::WriteTrace => LinkStep::Finished,
        LinkStep::Finished => LinkStep::Finished,
    }
}

/// What comes after a step. Copies of the inputs are kept even if they could not be loaded. The
/// inputs are checked whatever has failed before, and that they have changed is reported in place
/// of any other failure.
pub open spec fn spec_next(state: LinkState, succeeded: bool, facts: LinkFacts) -> LinkState {
    match state.step {
        LinkStep::LoadInputs => LinkState {
            step: LinkStep::SaveInputs,
            failed: if succeeded {
                state.failed
            } else {
                Some(LinkStep::LoadInputs)
            },
        },
        LinkStep::SaveInputs => if !succeeded {
            LinkState { step: LinkStep::VerifyInputs, failed: Some(LinkStep::SaveInputs) }
        } else if state.failed is Some {
            LinkState { step: LinkStep::VerifyInputs, ..state }
        } else {
            LinkState { step: LinkStep::ApplyScripts, ..state }
        },
        LinkStep::VerifyInputs => if !succeeded {
            LinkState { step: LinkStep::Finished, failed: Some(LinkStep::VerifyInputs) }
        } else if state.failed is Some {
            LinkState { step: LinkStep::Finished, ..state }
        } else {
            LinkState { step: after_verification(facts), ..state }
        },
        LinkStep::WriteDependencyFile | LinkStep::WriteTrace => if !succeeded {
            LinkState { step: LinkStep::Finished, failed: Some(state.step) }
        } else {
            LinkState { step: following(state.step, facts), ..state }
        },
        LinkStep::Finished => state,
        _ => if !succeeded {
            LinkState { step: LinkStep::VerifyInputs, failed: Some(state.step) }
        } else {
            LinkState { step: following(state.step, facts), ..state }
        },
    }
}

fn step_after(step: LinkStep, facts: LinkFacts) -> (next: LinkStep)
    ensures
        next == following(step, facts),
{
    let past_plugin: LinkStep = if facts.rust_version_script {
        LinkStep::ApplyRustVersionScript
    } else {
        LinkStep::BuildLayoutRules
    };
    let past_dependency_file: LinkStep = if facts.trace_file {
        LinkStep::WriteTrace
    } else {
        LinkStep::Finished
    };
    match step {
        LinkStep::InitPlugin => LinkStep::LoadInputs,
        LinkStep::LoadInputs => LinkStep::SaveInputs,
        LinkStep::SaveInputs => LinkStep::ApplyScripts,
        LinkStep::ApplyScripts => LinkStep::CreateOutput,
        LinkStep::CreateOutput => LinkStep::LoadAuxiliaryFiles,
        LinkStep::LoadAuxiliaryFiles => LinkStep::AddInputs,
        LinkStep::AddInputs => LinkStep::ApplyWrappedSymbols,
        LinkStep::ApplyWrappedSymbols => LinkStep::ResolveSymbols,
        LinkStep::ResolveSymbols => LinkStep::ResolveAlternatives,
        LinkStep::ResolveAlternatives => {
            if facts.plugin_initialised {
                LinkStep::PluginCodegen
            } else {
                past_plugin
            }
        },
        LinkStep::PluginCodegen => {
            if facts.plugin_generated {
                LinkStep::LoadGeneratedInputs
            } else {
                past_plugin
            }
        },
        LinkStep::LoadGeneratedInputs => LinkStep::IntegrateGeneratedInputs,
        LinkStep::IntegrateGeneratedInputs => past_plugin,
        LinkStep::ApplyRustVersionScript => LinkStep::BuildLayoutRules,
        LinkStep::BuildLayoutRules => LinkStep::ResolveSections,
        LinkStep::ResolveSections => LinkStep::ComputeLayout,
        LinkStep::ComputeLayout => LinkStep::SetOutputSize,
        LinkStep::SetOutputSize => LinkStep::WriteGcStats,
        LinkStep::WriteGcStats => {
            if facts.incremental {
                LinkStep::PlanIncremental
            } else {
                LinkStep::WriteOutput
            }
        },
        LinkStep::PlanIncremental => LinkStep::WriteOutput,
        LinkStep::WriteOutput => LinkStep::RunDiff,
        LinkStep::RunDiff => {
            if facts.incremental {
                LinkStep::FinishIncremental
            } else {
                LinkStep::VerifyInputs
            }
        },
        LinkStep::FinishIncremental => LinkStep::VerifyInputs,
        LinkStep::VerifyInputs => {
            if facts.dependency_file {
                LinkStep::WriteDependencyFile
            } else {
                past_dependency_file
            }
        },
        LinkStep::WriteDependencyFile => past_dependency_file,
        LinkStep::WriteTrace => LinkStep::Finished,
        LinkStep::Finished => LinkStep::Finished,
    }
}

impl LinkState {
    /// Nothing has been done.
    pub fn new() -> (state: LinkState)
        ensures
            state == (LinkState { step: LinkStep::InitPlugin, failed: None }),
    {
        LinkState { step: LinkStep::InitPlugin, failed: None }
    }

    /// What comes after the current step. `succeeded` says how that went.
    pub fn next(self, succeeded: bool, facts: LinkFacts) -> (state: LinkState)
        ensures
            state == spec_next(self, succeeded, facts),
    {
        match self.step {
            LinkStep::LoadInputs => {
                let failed: Option<LinkStep> = if succeeded {
                    self.failed
                } else {
                    Some(LinkStep::LoadInputs)
                };
                LinkState { step: LinkStep::SaveInputs, failed }
            },
            LinkStep::SaveInputs => {
                if !succeeded {
                    LinkState { step: LinkStep::VerifyInputs, failed: Some(LinkStep::SaveInputs) }
                } else if self.failed.is_some() {
                    LinkState { step: LinkStep::VerifyInputs, failed: self.failed }
                } else {
                    LinkState { step: LinkStep::ApplyScripts, failed: self.failed }
                }
            },
            LinkStep::VerifyInputs => {
                if !succeeded {
                    LinkState { step: LinkStep::Finished, failed: Some(LinkStep::VerifyInputs) }
                } else if self.failed.is_some() {
                    LinkState { step: LinkStep::Finished, failed: self.failed }
                } else {
                    LinkState { step: step_after(self.step, facts), failed: self.failed }
                }
            },
            LinkStep::WriteDependencyFile | LinkStep::WriteTrace => {
                if !succeeded {
                    LinkState { step: LinkStep::Finished, failed: Some(self.step) }
                } else {
                    LinkState { step: step_after(self.step, facts), failed: self.failed }
                }
            },
            LinkStep::Finished => self,
            _ => {
                if !succeeded {
                    LinkState { step: LinkStep::VerifyInputs, failed: Some(self.step) }
                } else {
                    LinkState { step: step_after(self.step, facts), failed: self.failed }
                }
            },
        }
    }
}

/// The state after the first `count` steps, whose outcomes are given.
pub open spec fn state_after(outcomes: Seq<bool>, facts: LinkFacts, count: int) -> LinkState
    decreases count,
{
    if count <= 0 {
        LinkState { step: LinkStep::InitPlugin, failed: None }
    } else {
        spec_next(state_after(outcomes, facts, count - 1), outcomes[count - 1], facts)
    }
}

/// Every step leads to a later one, so every link comes to an end.
pub proof fn lemma_links_end(state: LinkState, succeeded: bool, facts: LinkFacts)
    requires
        !(state.step is Finished),
    ensures
        rank(spec_next(state, succeeded, facts).step) > rank(state.step),
{
}

/// Whether the inputs have been checked.
pub open spec fn past_verification(state: LinkState) -> bool {
    rank(state.step) > rank(LinkStep::VerifyInputs)
}

/// No link comes to an end before its inputs have been checked, and that they have changed is
/// reported whatever else has failed.
pub proof fn lemma_changed_inputs_reported(
    outcomes: Seq<bool>,
    facts: LinkFacts,
    count: int,
)
    requires
        0 <= count < outcomes.len(),
    ensures
        past_verification(state_after(outcomes, facts, count + 1)) && !past_verification(
            state_after(outcomes, facts, count),
        ) ==> state_after(outcomes, facts, count).step is VerifyInputs,
        state_after(outcomes, facts, count).step is VerifyInputs && !outcomes[count]
            ==> state_after(outcomes, facts, count + 1) == (LinkState {
            step: LinkStep::Finished,
            failed: Some(LinkStep::VerifyInputs),
        }),
{
}

/// The output is written only if nothing has failed.
pub proof fn lemma_output_written_after_success(outcomes: Seq<bool>, facts: LinkFacts, count: int)
    requires
        0 <= count <= outcomes.len(),
    ensures
        ({
            let state = state_after(outcomes, facts, count);
            state.failed is Some ==> state.step is SaveInputs || state.step is VerifyInputs
                || state.step is Finished
        }),
    decreases count,
{
    if count > 0 {
        lemma_output_written_after_success(outcomes, facts, count - 1);
    }
}

/// The last name among those that linker scripts give the output.
pub open spec fn last_name<'data>(names: Seq<Option<&'data [u8]>>, count: int) -> Option<
    &'data [u8],
>
    decreases count,
{
    if count <= 0 {
        None
    } else {
        match names[count - 1] {
            Some(name) => Some(name),
            None => last_name(names, count - 1),
        }
    }
}

/// The name that linker scripts give the output: that of the last script which gives one.
pub fn script_output<'data>(names: &Vec<Option<&'data [u8]>>) -> (name: Option<&'data [u8]>)
    ensures
        name == last_name(names@, names@.len() as int),
{
    let mut i: usize = names.len();
    while i > 0
        invariant
            i <= names@.len(),
            last_name(names@, names@.len() as int) == last_name(names@, i as int),
        decreases i,
    {
        if let Some(name) = names[i - 1] {
            return Some(name);
        }
        i = i - 1;
    }
    None
}

/// Whether a linker script asks for space for common symbols.
pub fn any_forces_common(scripts: &Vec<bool>) -> (forces: bool)
    ensures
        forces == scripts@.contains(true),
{
    let mut i: usize = 0;
    while i < scripts.len()
        invariant
            i <= scripts@.len(),
            forall|k: int| 0 <= k < i ==> !scripts@[k],
        decreases scripts@.len() - i,
    {
        if scripts[i] {
            assert(scripts@[i as int] == true);
            return true;
        }
        i = i + 1;
    }
    false
}

/// The base address that the user asked for is not a multiple of the page size.
#[derive(Clone, Copy, Debug, PartialEq, Eq, Structural)]
pub struct UnalignedImageBase(pub u64);

/// The base address of the output: the one that the user asked for, or else the usual one.
pub fn base_address(image_base: Option<u64>, usual: u64, page_size: u64) -> (result: Result<
    u64,
    UnalignedImageBase,
>)
    requires
        page_size > 0,
    ensures
        result == (match image_base {
            None => Ok::<u64, UnalignedImageBase>(usual),
            Some(base) => if base % page_size == 0 {
                Ok::<u64, UnalignedImageBase>(base)
            } else {
                Err::<u64, UnalignedImageBase>(UnalignedImageBase(base))
            },
        }),
{
    match image_base {
        None => Ok(usual),
        Some(base) => {
            if base % page_size != 0 {
                Err(UnalignedImageBase(base))
            } else {
                Ok(base)
            }
        },
    }
}

/// What the arguments say about the version of the linker.
#[derive(Clone, Copy, Debug, PartialEq, Eq, Structural)]
pub enum VersionMode {
    NoVersion,
    ExitAfterPrint,
    Verbose,
    VerboseWithEmulations,
}

/// What is printed before linking, and whether to link at all.
#[derive(Clone, Copy, Debug, PartialEq, Eq, Structural)]
pub struct VersionAction {
    pub print_version: bool,
    pub print_emulations: bool,
    pub link: bool,
}

/// What is printed before linking, and whether to link at all: not if the version was all that the
/// user asked for.
pub fn version_action(mode: VersionMode, has_inputs: bool) -> (action: VersionAction)
    ensures
        action == (VersionAction {
            print_version: !(mode is NoVersion),
            print_emulations: mode is VerboseWithEmulations,
            link: match mode {
                VersionMode::NoVersion => true,
                VersionMode::ExitAfterPrint => false,
                _ => has_inputs,
            },
        }),
{
    match mode {
        VersionMode::NoVersion => VersionAction {
            print_version: false,
            print_emulations: false,
            link: true,
        },
        VersionMode::ExitAfterPrint => VersionAction {
            print_version: true,
            print_emulations: false,
            link: false,
        },
        VersionMode::Verbose => VersionAction {
            print_version: true,
            print_emulations: false,
            link: has_inputs,
        },
        VersionMode::VerboseWithEmulations => VersionAction {
            print_version: true,
            print_emulations: true,
            link: has_inputs,
        },
    }
}

/// The format of the output.
#[derive(Clone, Copy, Debug, PartialEq, Eq, Structural)]
pub enum OutputFormat {
    Coff,
    Elf,
    MachO,
    Wasm,
}

/// Why a format cannot be linked.
#[derive(Clone, Copy, Debug, PartialEq, Eq, Structural)]
pub enum UnsupportedFormat {
    Coff,
    /// Mach-O has to be enabled.
    MachOExperimental,
}

/// Whether a format can be linked. Mach-O can if the linker was built for it or the arguments allow
/// experimental platforms.
pub fn check_format(format: OutputFormat, built_for_macho: bool, experimental_platforms: bool) -> (
result: Result<(), UnsupportedFormat>)
    ensures
        result == (match format {
            OutputFormat::Coff => Err::<(), UnsupportedFormat>(UnsupportedFormat::Coff),
            OutputFormat::MachO if !(built_for_macho || experimental_platforms) => Err::<
                (),
                UnsupportedFormat,
            >(UnsupportedFormat::MachOExperimental),
            _ => Ok::<(), UnsupportedFormat>(()),
        }),
{
    match format {
        OutputFormat::Coff => Err(UnsupportedFormat::Coff),
        OutputFormat::MachO => {
            if !(built_for_macho || experimental_platforms) {
                Err(UnsupportedFormat::MachOExperimental)
            } else {
                Ok(())
            }
        },
        OutputFormat::Elf | OutputFormat::Wasm => Ok(()),
    }
}

/// Prepares to measure how long things take, if an environment variable asks for it and the linker
/// was built with it. Otherwise nothing is done. `setup` makes the preparations.
pub fn init_timing<E, S: FnOnce() -> Result<(), E>>(
    variable_is_set: bool,
    built_in: bool,
    setup: S,
) -> (result: Result<(), E>)
    requires
        variable_is_set && built_in ==> call_requires(setup, ()),
    ensures
        if variable_is_set && built_in {
            call_ensures(setup, (), result)
        } else {
            result is Ok
        },
{
    if variable_is_set && built_in {
        setup()
    } else {
        Ok(())
    }
}

/// What is left of a link. It can be dropped when convenient.
pub struct LinkerOutput<'layout_inputs> {
    /// `None` if nothing was linked.
    pub layout: Option<Layout<'layout_inputs>>,
}

impl<'layout_inputs> LinkerOutput<'layout_inputs> {
    /// Nothing was linked.
    pub fn empty() -> (output: LinkerOutput<'layout_inputs>)
        ensures
            output.layout is None,
    {
        LinkerOutput { layout: None }
    }

    /// Keeps a layout to be dropped later.
    pub fn new(layout: Layout<'layout_inputs>) -> (output: LinkerOutput<'layout_inputs>)
        ensures
            output.layout == Some(layout),
    {
        LinkerOutput { layout: Some(layout) }
    }

    /// Whether something was linked.
    pub fn has_layout(&self) -> (has: bool)
        ensures
            has == (self.layout is Some),
    {
        self.layout.is_some()
    }
}

} // verus!
