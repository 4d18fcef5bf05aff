//! What holds of a link as a whole: its steps, the work of its groups, the rules for sections, and what
//! it leaves behind.
use crate::dependency_file;
use crate::dependency_file::LoadedFile;
use crate::groups::FileState;
use crate::incremental_plan;
use crate::incremental_plan::{Fallback, PreviousLink};
use crate::link_steps;
use crate::link_steps::{LinkFacts, LinkState, LinkStep};
use crate::output_kind::OutputKind;
use crate::output_sections::{OutputSections, SectionAttributes};
use crate::record_layout::OutputRecordLayout;
use crate::section_classes;
use crate::section_rules::{SectionNameMatcher, SectionRule};
use crate::work_queue;
use crate::work_queue::{WorkAction, WorkItem};
use vstd::prelude::*;

verus! {

/// Whether a step is left out of a link.
pub open spec fn is_left_out(step: LinkStep, facts: LinkFacts) -> bool {
    match step {
        LinkStep::PluginCodegen => !facts.plugin_initialised,
        LinkStep::LoadGeneratedInputs | LinkStep::IntegrateGeneratedInputs =>
            !facts.plugin_initialised || !facts.plugin_generated,
        LinkStep::ApplyRustVersionScript => !facts.rust_version_script,
        LinkStep::PlanIncremental | LinkStep::FinishIncremental => !facts.incremental,
        LinkStep::WriteDependencyFile => !facts.dependency_file,
        LinkStep::WriteTrace => !facts.trace_file,
        _ => false,
    }
}

/// A step that succeeds is followed by the next one that is not left out.
pub proof fn lemma_no_step_is_skipped(step: LinkStep, skipped: LinkStep, facts: LinkFacts)
    requires
        !(step is Finished),
        !is_left_out(step, facts),
        link_steps::rank(step) < link_steps::rank(skipped) < link_steps::rank(
            link_steps::following(step, facts),
        ),
    ensures
        is_left_out(skipped, facts),
{
}

/// No step follows that is left out, and links go on.
pub proof fn lemma_left_out_steps_do_not_follow(step: LinkStep, facts: LinkFacts)
    requires
        !(step is Finished),
        !is_left_out(step, facts),
    ensures
        !is_left_out(link_steps::following(step, facts), facts),
        link_steps::rank(link_steps::following(step, facts)) > link_steps::rank(step),
{
}

/// After a failure nothing but the check of the inputs is done, except that copies of the inputs are
/// still kept if loading failed. What failed is reported, unless the inputs have changed.
pub proof fn lemma_failures_end_links(state: LinkState, succeeded: bool, facts: LinkFacts)
    requires
        state.failed is None,
        !(state.step is Finished),
    ensures
        ({
            let next = link_steps::spec_next(state, succeeded, facts);
            &&& succeeded ==> next.failed is None && next.step == link_steps::following(
                state.step,
                facts,
            )
            &&& !succeeded ==> next.failed == Some(state.step)
            &&& !succeeded ==> next.step is VerifyInputs || next.step is Finished || (state.step
                is LoadInputs && next.step is SaveInputs)
            &&& !succeeded && link_steps::rank(state.step) < link_steps::rank(
                LinkStep::VerifyInputs,
            ) && !(state.step is LoadInputs) ==> next.step is VerifyInputs
        }),
{
}

/// A failure is not forgotten.
pub proof fn lemma_failures_are_kept(state: LinkState, succeeded: bool, facts: LinkFacts)
    requires
        state.failed is Some,
    ensures
        ({
            let next = link_steps::spec_next(state, succeeded, facts);
            &&& next.failed is Some
            &&& succeeded || state.step is Finished ==> next.failed == state.failed
            &&& state.step is VerifyInputs ==> next.step is Finished
            &&& state.step is VerifyInputs && !succeeded ==> next.failed == Some(
                LinkStep::VerifyInputs,
            )
            &&& state.step is SaveInputs ==> next.step is VerifyInputs
        }),
{
}

proof fn lemma_last_name<'data>(names: Seq<Option<&'data [u8]>>, count: int)
    requires
        0 <= count <= names.len(),
    ensures
        match link_steps::last_name(names, count) {
            Some(name) => exists|i: int|
                0 <= i < count && #[trigger] names[i] == Some(name) && forall|j: int|
                    i < j < count ==> (#[trigger] names[j]) is None,
            None => forall|i: int| 0 <= i < count ==> (#[trigger] names[i]) is None,
        },
    decreases count,
{
    if count > 0 {
        let last = names[count - 1];
        if last is None {
            lemma_last_name(names, count - 1);
            if link_steps::last_name(names, count - 1) is Some {
                let name = link_steps::last_name(names, count - 1)->0;
                let i = choose|i: int|
                    0 <= i < count - 1 && #[trigger] names[i] == Some(name) && forall|j: int|
                        i < j < count - 1 ==> (#[trigger] names[j]) is None;
                assert(names[i] == Some(name));
            }
        } else {
            assert(names[count - 1] == Some(last->0));
        }
    }
}

/// The output has the name that the last linker script gives which gives one.
pub proof fn lemma_last_script_names_output<'data>(names: Seq<Option<&'data [u8]>>)
    ensures
        match link_steps::last_name(names, names.len() as int) {
            Some(name) => exists|i: int|
                0 <= i < names.len() && #[trigger] names[i] == Some(name) && forall|j: int|
                    i < j < names.len() ==> (#[trigger] names[j]) is None,
            None => forall|i: int| 0 <= i < names.len() ==> (#[trigger] names[i]) is None,
        },
{
    lemma_last_name(names, names.len() as int);
}

/// Only objects load sections and export symbols, only shared objects have symbols copied, and other
/// requests of that kind fail or do nothing. An action is about the symbol that was asked for.
pub proof fn lemma_work_is_done_by_kind_of_file(file: FileState, work: WorkItem)
    ensures
        ({
            let action = work_queue::action_for(file, work);
            &&& work matches WorkItem::LoadGlobalSymbol(id) ==> {
                &&& action is Ok
                &&& file is Object <==> action->Ok_0 == WorkAction::LoadObjectSymbol(id)
                &&& file is Dynamic <==> action->Ok_0 == WorkAction::UseDynamicSymbol(id)
                &&& file is StubLibrary <==> action->Ok_0 == WorkAction::ImportStubSymbol(id)
                &&& file is SyntheticSymbols <==> action->Ok_0 == WorkAction::LoadMarkedSections(
                    id,
                )
            }
            &&& work matches WorkItem::CopyRelocateSymbol(id) ==> (action is Ok <==> file
                is Dynamic) && (action is Ok ==> action->Ok_0 == WorkAction::CopyRelocate(id))
            &&& work matches WorkItem::LoadGcUnit(request) ==> (action is Ok <==> file is Object)
                && (action is Ok ==> action->Ok_0 == WorkAction::LoadGcUnit(request.gc_unit))
            &&& work matches WorkItem::ExportDynamic(id) ==> action is Ok && (file is Object
                <==> action->Ok_0 == WorkAction::Export(id))
        }),
{
}

proof fn lemma_dependencies(files: Seq<LoadedFile>, count: int)
    requires
        0 <= count <= files.len(),
    ensures
        forall|path: Seq<u8>| #[trigger]
            dependency_file::dependencies(files, count).contains(path) <==> exists|i: int|
                0 <= i < count && !(#[trigger] files[i]).temporary && files[i].path@ == path,
    decreases count,
{
    let all = dependency_file::dependencies(files, count);
    if count > 0 {
        lemma_dependencies(files, count - 1);
        let before = dependency_file::dependencies(files, count - 1);
        let last = files[count - 1];
        assert forall|path: Seq<u8>| #[trigger]
            all.contains(path) <==> exists|i: int|
                0 <= i < count && !(#[trigger] files[i]).temporary && files[i].path@ == path by {
            assert(files[count - 1] == last);
            assert(before.contains(path) ==> all.contains(path)) by {
                if before.contains(path) {
                    let k = choose|k: int| 0 <= k < before.len() && before[k] == path;
                    assert(all[k] == path);
                }
            }
            if all.contains(path) {
                let k = choose|k: int| 0 <= k < all.len() && all[k] == path;
                if k < before.len() {
                    assert(before[k] == path);
                    assert(before.contains(path));
                    let i = choose|i: int|
                        0 <= i < count - 1 && !(#[trigger] files[i]).temporary && files[i].path@
                            == path;
                    assert(!files[i].temporary);
                } else {
                    assert(!files[count - 1].temporary && files[count - 1].path@ == path);
                }
            }
            if exists|i: int|
                0 <= i < count && !(#[trigger] files[i]).temporary && files[i].path@ == path {
                let i = choose|i: int|
                    0 <= i < count && !(#[trigger] files[i]).temporary && files[i].path@ == path;
                if i < count - 1 {
                    assert(before.contains(path));
                } else if !before.contains(path) {
                    assert(all[before.len() as int] == path);
                }
            }
        }
    }
}

/// The output depends on each file that was read and is not temporary, and on nothing else.
pub proof fn lemma_output_depends_on_inputs(files: Seq<LoadedFile>, path: Seq<u8>)
    ensures
        dependency_file::dependencies(files, files.len() as int).contains(path) <==> exists|i: int|
            0 <= i < files.len() && !(#[trigger] files[i]).temporary && files[i].path@ == path,
{
    lemma_dependencies(files, files.len() as int);
}

/// The first line of a dependency file is the output, a colon, and a space before each of the files.
/// Each file has a rule of its own.
pub proof fn lemma_dependency_text_grows(output: Seq<u8>, paths: Seq<Seq<u8>>, path: Seq<u8>)
    ensures
        dependency_file::dependency_text(output, Seq::empty()) == output + seq![0x3au8, 0x0a],
        dependency_file::listed(paths.push(path), paths.len() as int + 1) == dependency_file::listed(
            paths,
            paths.len() as int,
        ) + seq![0x20u8] + path,
        dependency_file::empty_rules(paths.push(path), paths.len() as int + 1)
            == dependency_file::empty_rules(paths, paths.len() as int) + seq![0x0au8] + path + seq![
            0x3au8,
            0x0a,
        ],
{
    let none: Seq<Seq<u8>> = Seq::empty();
    assert(dependency_file::dependency_text(output, none) =~= output + seq![0x3au8, 0x0a]);
    lemma_texts_of_prefix(paths, path, paths.len() as int);
}

proof fn lemma_texts_of_prefix(paths: Seq<Seq<u8>>, path: Seq<u8>, count: int)
    requires
        0 <= count <= paths.len(),
    ensures
        dependency_file::listed(paths.push(path), count) == dependency_file::listed(paths, count),
        dependency_file::empty_rules(paths.push(path), count) == dependency_file::empty_rules(
            paths,
            count,
        ),
    decreases count,
{
    if count > 0 {
        lemma_texts_of_prefix(paths, path, count - 1);
    }
}

/// A link is incremental only if nothing speaks against it; each reason against it is recorded once,
/// those of the arguments first.
pub proof fn lemma_reasons_against_incremental_links<'a>(
    plugin_or_gc: Option<&'a str>,
    has_strict_order_sections: bool,
)
    ensures
        ({
            let reasons = incremental_plan::fallbacks(plugin_or_gc, has_strict_order_sections);
            &&& reasons.len() == 0 <==> plugin_or_gc is None && !has_strict_order_sections
            &&& reasons.len() == 2 <==> plugin_or_gc is Some && has_strict_order_sections
            &&& plugin_or_gc matches Some(reason) ==> reasons[0] == Fallback::PluginOrGc(reason)
            &&& has_strict_order_sections ==> reasons.last() == Fallback::<'a>::StrictOrder
        }),
{
}

/// Files are updated in place only if some are skipped and the previous link has left both the values
/// of symbols and the places that depend on them.
pub proof fn lemma_updates_need_previous_link(previous: PreviousLink, skips_files: bool)
    ensures
        previous.job(skips_files) is Some <==> skips_files && previous.resolutions is Some
            && previous.reverse_relocs is Some,
        previous.job(skips_files) matches Some(job) ==> job.old_resolutions
            == previous.resolutions->0 && job.reverse_relocs == previous.reverse_relocs->0,
{
}

/// A rule for a name is about sections of that name, and a rule for a prefix about all names that
/// begin with it.
pub proof fn lemma_rules_match_names<'data>(
    exact: Vec<u8>,
    prefix: &'data [u8],
    name: Seq<u8>,
    rest: Seq<u8>,
)
    ensures
        SectionNameMatcher::<'data>::Exact(exact).accepts(name) <==> name == exact@,
        SectionNameMatcher::Prefix(prefix).accepts(prefix@ + rest),
        name.len() < prefix@.len() ==> !SectionNameMatcher::Prefix(prefix).accepts(name),
        SectionNameMatcher::Prefix(prefix).accepts(name) ==> forall|i: int|
            0 <= i < prefix@.len() ==> name[i] == #[trigger] prefix@[i],
{
    let all = prefix@ + rest;
    assert(all.take(prefix@.len() as int) =~= prefix@);
    if SectionNameMatcher::Prefix(prefix).accepts(name) {
        assert forall|i: int| 0 <= i < prefix@.len() implies name[i] == #[trigger] prefix@[i] by {
            assert(name.take(prefix@.len() as int)[i] == name[i]);
        }
    }
}

/// A rule is never about a file that it excludes. If the name of the file is not known, a rule for
/// certain files is not about it, and one for all files is.
pub proof fn lemma_rules_exclude_files<'data>(
    rule: SectionRule<'data>,
    section_name: Seq<u8>,
    file_name: Option<&[u8]>,
)
    ensures
        rule.excludes(file_name) ==> !rule.applies(section_name, file_name),
        !rule.name_matcher.accepts(section_name) ==> !rule.applies(section_name, file_name),
        rule.input_file_pattern is Some ==> !rule.applies(section_name, None),
        rule.input_file_pattern is None ==> (rule.applies(section_name, None)
            <==> rule.name_matcher.accepts(section_name)),
        rule.input_file_pattern is None && rule.exclude_file_patterns@.len() == 0 ==> (
        rule.applies(section_name, file_name) <==> rule.name_matcher.accepts(section_name)),
{
}

/// Sections that can be executed are placed with code, whatever else they are. Of the others,
/// thread-local ones are placed with their like, and only sections that are neither allocated nor
/// written are placed with those that are not loaded.
pub proof fn lemma_sections_are_placed_with_similar_ones(attributes: SectionAttributes)
    ensures
        ({
            let class = section_classes::spec_class_of(attributes);
            &&& class is Exec <==> attributes.executable
            &&& class is Tdata || class is Tbss <==> !attributes.executable && attributes.tls
            &&& class is Tbss || class is Bss ==> attributes.no_bits
            &&& class is Tdata || class is Data ==> !attributes.no_bits
            &&& class is Ro || class is NonAlloc <==> !attributes.executable && !attributes.tls
                && !attributes.writable
            &&& class is Ro ==> attributes.alloc
            &&& class is NonAlloc ==> !attributes.alloc
            &&& class is Data || class is Bss ==> attributes.writable
        }),
{
}

/// Sections with the names `.init` and `.fini` keep the order of their contents if they have any, and
/// no others do.
pub proof fn lemma_init_and_fini_keep_order<'data>(
    sections: &OutputSections<'data>,
    layouts: Seq<OutputRecordLayout>,
    id: int,
)
    ensures
        ({
            let name = dependency_file::name_of(sections, id);
            let init = seq![0x2eu8, 0x69, 0x6e, 0x69, 0x74];
            let fini = seq![0x2eu8, 0x66, 0x69, 0x6e, 0x69];
            dependency_file::has_strict_order(sections, layouts, id) <==> layouts[id].mem_size > 0
                && (name == init || name == fini)
        }),
{
}

/// Only executables that are not position independent have to be loaded at one address.
pub proof fn lemma_fixed_executables_have_fixed_address(kind: OutputKind)
    ensures
        kind is SharedObject || kind is PartialLink ==> !kind.fixed_address(),
        kind matches OutputKind::StaticExecutable(model) ==> (kind.fixed_address() <==> model
            is Fixed),
        kind matches OutputKind::DynamicExecutable(model) ==> (kind.fixed_address() <==> model
            is Fixed),
{
}

} // verus!
