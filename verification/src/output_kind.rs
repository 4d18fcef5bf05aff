//! What kind of file a link produces.
use vstd::prelude::*;

verus! {

/// Whether code may be loaded anywhere or only at a fixed address.
#[derive(Clone, Copy, Debug, PartialEq, Eq, Structural)]
pub enum RelocationModel {
    Fixed,
    PositionIndependent,
}

/// What kind of file a link produces.
#[derive(Clone, Copy, Debug, PartialEq, Eq, Structural)]
pub enum OutputKind {
    StaticExecutable(RelocationModel),
    DynamicExecutable(RelocationModel),
    SharedObject,
    PartialLink,
}

/// What the arguments say about the kind of output.
#[derive(Clone, Copy, Debug, PartialEq, Eq, Structural)]
pub struct OutputKindArgs {
    pub relocation_model: RelocationModel,
    pub should_output_executable: bool,
    pub should_output_partial_object: bool,
    pub has_dynamic_linker: bool,
}

impl OutputKind {
    /// The kind of output that arguments and inputs ask for. A position-independent executable
    /// with a dynamic linker, and one that has a shared object among its inputs, is a dynamic one.
    pub fn new(args: &OutputKindArgs, has_dynamic_input: bool) -> (kind: OutputKind)
        ensures
            kind is PartialLink <==> !args.should_output_executable
                && args.should_output_partial_object,
            kind is SharedObject <==> !args.should_output_executable
                && !args.should_output_partial_object,
            kind == OutputKind::DynamicExecutable(args.relocation_model)
                <==> args.should_output_executable && (has_dynamic_input || (args.has_dynamic_linker
                && args.relocation_model is PositionIndependent)),
            kind == OutputKind::StaticExecutable(args.relocation_model)
                <==> args.should_output_executable && !has_dynamic_input && !(
            args.has_dynamic_linker && args.relocation_model is PositionIndependent),
    {
        let model: RelocationModel = args.relocation_model;
        if !args.should_output_executable {
            if args.should_output_partial_object {
                return OutputKind::PartialLink;
            }
            OutputKind::SharedObject
        } else if args.has_dynamic_linker && model == RelocationModel::PositionIndependent {
            OutputKind::DynamicExecutable(model)
        } else if has_dynamic_input {
            OutputKind::DynamicExecutable(model)
        } else {
            OutputKind::StaticExecutable(model)
        }
    }

    /// Whether the output is an object file that is linked again.
    pub fn is_partial_link(self) -> (partial: bool)
        ensures
            partial == (self is PartialLink),
    {
        matches!(self, OutputKind::PartialLink)
    }

    /// Whether the output is an executable.
    pub fn is_executable(self) -> (executable: bool)
        ensures
            executable == (self is StaticExecutable || self is DynamicExecutable),
    {
        matches!(self, OutputKind::StaticExecutable(_) | OutputKind::DynamicExecutable(_))
    }

    /// Whether the output has a table of dynamic symbols.
    pub fn needs_dynsym(self) -> (needs: bool)
        ensures
            needs == (self is SharedObject || self is DynamicExecutable),
    {
        matches!(self, OutputKind::SharedObject | OutputKind::DynamicExecutable(_))
    }

    pub open spec fn fixed_address(self) -> bool {
        self == OutputKind::StaticExecutable(RelocationModel::Fixed) || self
            == OutputKind::DynamicExecutable(RelocationModel::Fixed)
    }

    /// Whether the output has to be loaded at one particular address.
    pub fn has_fixed_load_address(self) -> (fixed: bool)
        ensures
            fixed == self.fixed_address(),
    {
        match self {
            OutputKind::StaticExecutable(model) => model == RelocationModel::Fixed,
            OutputKind::DynamicExecutable(model) => model == RelocationModel::Fixed,
            _ => false,
        }
    }
}

/// Where the memory of an output starts: at the architecture's load address if the output has to
/// be loaded there, otherwise at zero.
pub fn start_memory_address(output_kind: OutputKind, default_load_address: u64) -> (address: u64)
    ensures
        address == (if output_kind.fixed_address() {
            default_load_address
        } else {
            0
        }),
{
    if output_kind.has_fixed_load_address() {
        default_load_address
    } else {
        0
    }
}

} // verus!
