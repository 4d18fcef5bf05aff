//! What plugins are told, and what is made of their answers.
use crate::output_kind::RelocationModel;
use crate::plugin_protocol;
use crate::plugin_protocol::{
    ClaimOutcome, GeneratedInput, LdPluginTv, LtoStep, OutputFileType, PluginFunctions, Status, Tag,
};
use crate::plugin_symbols;
use crate::plugin_symbols::{
    AskedSymbol, DefiningFile, KnownSymbols, PluginSymbolResolution, SymbolKind,
};
use crate::symbol_id::{SymbolId, SymbolIdRange};
use crate::value_flags::ValueFlags;
use vstd::prelude::*;

verus! {

/// Whether a file that says this of a symbol defines it.
pub open spec fn is_definition(kind: Option<SymbolKind>) -> bool {
    kind == Some(SymbolKind::Def) || kind == Some(SymbolKind::WeakDef) || kind == Some(
        SymbolKind::Common,
    )
}

/// A plugin's definition prevails if and only if it is the one that its name stands for. Then the
/// plugin may do with it what it likes only if nothing but intermediate code refers to it and it is
/// not exported.
pub proof fn lemma_own_definitions_prevail(
    id: SymbolId,
    kind: Option<SymbolKind>,
    is_wrapped: bool,
    range: SymbolIdRange,
    flags: ValueFlags,
    file: DefiningFile,
)
    requires
        id.0 != 0,
        is_definition(kind),
    ensures
        ({
            let answer = plugin_symbols::told(Some(id), kind, is_wrapped, range, flags, file);
            let own = range.start_symbol_id.0 <= id.0 < range.start_symbol_id.0
                + range.num_symbols;
            &&& own <==> answer is PrevailingDef || answer is PrevailingDefIronly || answer
                is PrevailingDefIronlyExp
            &&& own ==> (answer is PrevailingDef <==> flags.has_non_ir_ref)
            &&& own ==> (answer is PrevailingDefIronly <==> !flags.has_non_ir_ref
                && !flags.export_dynamic)
            &&& !own ==> (answer is PreemptedIr <==> file is LtoInput && !is_wrapped)
            &&& !own ==> (answer is PreemptedReg <==> !(file is LtoInput) || is_wrapped)
        }),
{
}

/// A plugin learns of a symbol that it refers to what kind of file defines it.
pub proof fn lemma_references_are_resolved(
    id: SymbolId,
    kind: Option<SymbolKind>,
    is_wrapped: bool,
    range: SymbolIdRange,
    flags: ValueFlags,
    file: DefiningFile,
)
    requires
        id.0 != 0,
        !is_definition(kind),
    ensures
        ({
            let answer = plugin_symbols::told(Some(id), kind, is_wrapped, range, flags, file);
            &&& answer is ResolvedIr <==> file is LtoInput && !is_wrapped
            &&& answer is ResolvedDyn <==> file == DefiningFile::Object { is_dynamic: true }
                && !is_wrapped
            &&& answer is ResolvedExec <==> is_wrapped || file is Other || file
                == DefiningFile::Object { is_dynamic: false }
        }),
{
}

/// A symbol is reported as undefined if and only if nothing defines it.
pub proof fn lemma_undefined_is_reported(
    definition: Option<SymbolId>,
    kind: Option<SymbolKind>,
    is_wrapped: bool,
    range: SymbolIdRange,
    flags: ValueFlags,
    file: DefiningFile,
)
    ensures
        plugin_symbols::told(definition, kind, is_wrapped, range, flags, file) is Undef
            <==> definition is None || (definition->0).0 == 0,
        !(plugin_symbols::told(definition, kind, is_wrapped, range, flags, file) is Unknown),
{
}

/// Each answer has a number of its own, from 0 to 9.
pub proof fn lemma_answers_have_numbers(a: PluginSymbolResolution, b: PluginSymbolResolution)
    ensures
        a.number() == b.number() ==> a == b,
        0 <= a.number() <= 9,
        a is Unknown <==> a.number() == 0,
        a is Undef <==> a.number() == 1,
        a is PrevailingDef <==> a.number() == 2,
        a is PrevailingDefIronly <==> a.number() == 3,
        a is PreemptedReg <==> a.number() == 4,
        a is PreemptedIr <==> a.number() == 5,
        a is ResolvedIr <==> a.number() == 6,
        a is ResolvedExec <==> a.number() == 7,
        a is ResolvedDyn <==> a.number() == 8,
{
}

/// A symbol with a version is looked up with its version, and one without a version by its name. A
/// version that is given apart from the name counts more than one in the name.
pub proof fn lemma_versions_count<'a, 'data>(known: &KnownSymbols<'a>, symbol: AskedSymbol<'data>)
    requires
        !plugin_symbols::is_listed(known.wrap_names@, symbol.name@),
    ensures
        symbol.version is None && symbol.own_version is None ==> known.asked_definition(symbol)
            == known.definition_of(symbol.name@),
        symbol.version matches Some(version) ==> known.asked_definition(symbol)
            == known.versioned_definition_of(symbol.name@, version@),
        symbol.version is None && symbol.own_version is Some ==> known.asked_definition(symbol)
            == known.versioned_definition_of(symbol.name@, (symbol.own_version->0)@),
{
}

/// A definition is that of the symbol that a name stands for.
pub proof fn lemma_names_lead_to_definitions<'a>(known: &KnownSymbols<'a>, name: Seq<u8>)
    requires
        known.wf(),
    ensures
        known.definition_of(name) is Some <==> known.names@.contains_key(name),
        known.definition_of(name) matches Some(id) ==> id.0 < known.definitions@.len() && id
            == known.definitions@[known.names@[name] as int],
{
}

/// Each tag has a number of its own. Only the last entry of the list that a plugin is given has the
/// number 0, and the first one has the number of messages.
pub proof fn lemma_tags_have_numbers(a: Tag, b: Tag)
    ensures
        a.number() == b.number() ==> a == b,
        a.number() == 0 <==> a is Null,
        a.number() == 11 <==> a is Message,
{
}

/// The list that a plugin is given starts with the function for messages, ends with an entry of the
/// number 0, and has no such entry before. Each option stands in it once, in the order of the options.
pub proof fn lemma_list_for_plugin(
    functions: PluginFunctions,
    options: Seq<usize>,
    output_type: OutputFileType,
    output_name: usize,
    list: Seq<LdPluginTv>,
)
    requires
        list == seq![LdPluginTv::of(Tag::Message, functions.message)]
            + plugin_protocol::option_entries(options) + plugin_protocol::other_entries(
            functions,
            output_type,
            output_name,
        ),
    ensures
        list.len() == options.len() + 20,
        list[0].tag == 11 && list[0].value == functions.message,
        list.last().tag == 0,
        forall|i: int| 0 <= i < list.len() - 1 ==> (#[trigger] list[i]).tag != 0,
        forall|i: int|
            0 <= i < options.len() ==> (#[trigger] list[i + 1]).tag == 4 && list[i + 1].value
                == options[i],
        forall|i: int|
            options.len() < i < list.len() ==> (#[trigger] list[i]).tag != 4 && list[i].tag != 11,
{
    let n = options.len() as int;
    let others = plugin_protocol::other_entries(functions, output_type, output_name);
    assert(others.len() == 19);
    assert forall|i: int| 0 <= i < options.len() implies (#[trigger] list[i + 1]).tag == 4 && list[i
        + 1].value == options[i] by {
        assert(plugin_protocol::option_entries(options)[i] == LdPluginTv::of(
            Tag::PluginOption,
            options[i],
        ));
    }
    assert forall|i: int| options.len() < i < list.len() implies (#[trigger] list[i]).tag != 4
        && list[i].tag != 11 && (list[i].tag == 0 <==> i == list.len() - 1) by {
        assert(list[i] == others[i - n - 1]);
    }
    assert forall|i: int| 0 <= i < list.len() - 1 implies (#[trigger] list[i]).tag != 0 by {
        if 0 < i && i <= n {
            assert(list[i] == list[(i - 1) + 1]);
        }
    }
}

/// A file is compiled by a plugin only if nothing failed and the plugin claimed it. A failure of what
/// the plugin called is reported before others.
pub proof fn lemma_claims(
    has_hook: bool,
    status: Status,
    callback_failed: bool,
    has_message: bool,
    claimed: i32,
    archive_semantics: bool,
)
    ensures
        ({
            let outcome = plugin_protocol::spec_process_input(
                has_hook,
                status,
                callback_failed,
                has_message,
                claimed,
                archive_semantics,
            );
            let went_well = has_hook && status is Success && !has_message;
            &&& outcome is Claimed <==> went_well && claimed == 1
            &&& outcome is Skipped <==> went_well && claimed != 1 && archive_semantics
            &&& outcome is NotClaimed <==> went_well && claimed != 1 && !archive_semantics
            &&& outcome is CallbackError <==> !went_well && callback_failed
            &&& outcome is MissingHook ==> !has_hook
            &&& outcome matches ClaimOutcome::Failed { status: reported, with_message }
                ==> reported == status && !(status is Success) && with_message == has_message
        }),
{
}

/// What the plugin has generated is loaded before it is added, names mean what they meant before when
/// it is added, and its files stop to count only after that.
pub proof fn lemma_steps_of_plugin(save_outputs: bool)
    ensures
        plugin_protocol::spec_after_lto_step(LtoStep::CallPlugin, true) is SaveOutputs,
        plugin_protocol::spec_after_lto_step(LtoStep::CallPlugin, false) is LoadOutputs,
        forall|step: LtoStep|
            plugin_protocol::spec_after_lto_step(step, save_outputs) is AddOutputs <==> step
                is RestoreNames,
        forall|step: LtoStep|
            plugin_protocol::spec_after_lto_step(step, save_outputs) is ResolveSymbols <==> step
                is RedirectNames,
        forall|step: LtoStep|
            plugin_protocol::spec_after_lto_step(step, save_outputs) is DisableInputs <==> step
                is ResolveSymbols,
        forall|step: LtoStep|
            plugin_protocol::spec_after_lto_step(step, save_outputs) is RedirectNames <==> step
                is AddOutputs,
        forall|step: LtoStep|
            plugin_protocol::spec_after_lto_step(step, save_outputs) is CallPlugin <==> step
                is MarkExportedSymbols,
{
}

proof fn lemma_generated_count<'data>(inputs: Seq<GeneratedInput<'data>>, count: int)
    requires
        0 <= count <= inputs.len(),
    ensures
        forall|i: int|
            0 <= i < count ==> ((#[trigger] inputs[i]) matches GeneratedInput::File(path)
                ==> plugin_protocol::generated_files(inputs, count).contains(path)),
        forall|k: int|
            0 <= k < plugin_protocol::generated_files(inputs, count).len() ==> exists|i: int|
                0 <= i < count && #[trigger] inputs[i] == GeneratedInput::<'data>::File(
                    #[trigger] plugin_protocol::generated_files(inputs, count)[k],
                ),
    decreases count,
{
    if count > 0 {
        lemma_generated_count(inputs, count - 1);
        let before = plugin_protocol::generated_files(inputs, count - 1);
        let files = plugin_protocol::generated_files(inputs, count);
        let last = inputs[count - 1];
        assert forall|i: int| 0 <= i < count implies ((#[trigger] inputs[i]) matches
            GeneratedInput::File(path) ==> files.contains(path)) by {
            if inputs[i] is File {
                let path = inputs[i]->File_0;
                if i < count - 1 {
                    assert(before.contains(path));
                    let k = choose|k: int| 0 <= k < before.len() && before[k] == path;
                    assert(files[k] == path);
                } else {
                    assert(files[before.len() as int] == path);
                }
            }
        }
        assert forall|k: int| 0 <= k < files.len() implies exists|i: int|
            0 <= i < count && #[trigger] inputs[i] == GeneratedInput::<'data>::File(
                #[trigger] files[k],
            ) by {
            if k < before.len() {
                let i = choose|i: int|
                    0 <= i < count - 1 && #[trigger] inputs[i] == GeneratedInput::<'data>::File(
                        before[k],
                    );
                assert(inputs[i] == GeneratedInput::<'data>::File(files[k]));
            } else {
                assert(inputs[count - 1] == GeneratedInput::<'data>::File(files[k]));
            }
        }
    }
}

/// Every file that a plugin has generated is kept, and nothing else is.
pub proof fn lemma_generated_files_are_kept<'data>(inputs: Seq<GeneratedInput<'data>>)
    ensures
        forall|i: int|
            0 <= i < inputs.len() ==> ((#[trigger] inputs[i]) matches GeneratedInput::File(path)
                ==> plugin_protocol::generated_files(inputs, inputs.len() as int).contains(path)),
        forall|k: int|
            0 <= k < plugin_protocol::generated_files(inputs, inputs.len() as int).len()
                ==> exists|i: int|
                0 <= i < inputs.len() && #[trigger] inputs[i] == GeneratedInput::<'data>::File(
                    #[trigger] plugin_protocol::generated_files(inputs, inputs.len() as int)[k],
                ),
{
    lemma_generated_count(inputs, inputs.len() as int);
}

/// Each kind of symbol has a number of its own from 0 to 4; other numbers stand for no kind. The kinds
/// 0, 1 and 4 are definitions.
pub proof fn lemma_kinds_have_numbers(raw: i8)
    ensures
        SymbolKind::of_raw(raw) is Some <==> 0 <= raw <= 4,
        is_definition(SymbolKind::of_raw(raw)) <==> raw == 0 || raw == 1 || raw == 4,
        SymbolKind::of_raw(raw) == Some(SymbolKind::Undef) <==> raw == 2,
        SymbolKind::of_raw(raw) == Some(SymbolKind::WeakUndef) <==> raw == 3,
        SymbolKind::of_raw(raw) == Some(SymbolKind::WeakDef) <==> raw == 1,
        SymbolKind::of_raw(raw) == Some(SymbolKind::Common) <==> raw == 4,
{
}

/// Plugins are told whether they compile for an executable at a fixed address, for a
/// position-independent one, or for a shared object.
pub proof fn lemma_kind_of_output(executable: bool, model: RelocationModel)
    ensures
        ({
            let ty = OutputFileType::spec_new(executable, model);
            &&& ty is Dyn <==> !executable
            &&& ty is Pie <==> executable && model is PositionIndependent
            &&& ty is Exec <==> executable && model is Fixed
            &&& ty is Exec <==> ty.number() == 1
            &&& ty is Dyn <==> ty.number() == 2
            &&& ty is Pie <==> ty.number() == 3
        }),
{
}

} // verus!
