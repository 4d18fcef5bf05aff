//! What a finished layout says of files and symbols.
use crate::expression;
use crate::expression::Expression;
use crate::expression_eval;
use crate::expression_eval::EnvView;
use crate::file_id::FileId;
use crate::layout_queries;
use crate::layout_queries::{FileLayout, Layout, RecordContents};
use crate::resolution::Resolution;
use crate::symbol_id::{SymbolId, SymbolIdRange};
use vstd::prelude::*;

verus! {

/// The place of a relocation is recorded if and only if the link is incremental and the units of both
/// files are known. The record leads back to the definition of the symbol.
pub proof fn lemma_reverse_relocations_lead_to_definitions<'data>(
    layout: &Layout<'data>,
    symbol: SymbolId,
    file_offset: u64,
    place: u64,
    addend: i64,
    r_type: u32,
    file: FileId,
)
    requires
        layout.wf(),
        layout.has_symbol(symbol),
        ({
            let definition = layout.definitions@[symbol.0 as int];
            let owner = layout.symbol_file_ids@[definition.0 as int];
            layout.incremental_atoms@.contains_key(owner.0 as u64) ==> layout.range_of(
                owner,
            ).start_symbol_id.0 <= definition.0
        }),
    ensures
        ({
            let definition = layout.definitions@[symbol.0 as int];
            let owner = layout.symbol_file_ids@[definition.0 as int];
            match layout.reverse_reloc(symbol, file_offset, place, addend, r_type, file) {
                Some(reloc) => {
                    &&& layout.incremental
                    &&& reloc.owner_atom == layout.incremental_atoms@[file.0 as u64]
                    &&& reloc.definition_atom == layout.incremental_atoms@[owner.0 as u64]
                    &&& layout.range_of(owner).start_symbol_id.0 + reloc.local_symbol == definition.0
                    &&& reloc.place == place && reloc.addend == addend && reloc.r_type == r_type
                        && reloc.file_offset == file_offset
                },
                None => !(layout.incremental && layout.incremental_atoms@.contains_key(
                    file.0 as u64,
                ) && layout.incremental_atoms@.contains_key(owner.0 as u64)),
            }
        }),
{
}

/// The values of a file are those of its symbols, in their order. Symbols without a value have 0.
pub proof fn lemma_values_of_files(
    resolutions: Seq<Option<Resolution>>,
    range: SymbolIdRange,
    count: int,
    i: int,
)
    requires
        0 <= i < count,
    ensures
        ({
            let values = layout_queries::values_in_range(resolutions, range, count);
            let at = range.start_symbol_id.0 + i;
            &&& values.len() == count
            &&& at < resolutions.len() && resolutions[at] is Some ==> values[i] == (
            resolutions[at]->0).raw_value
            &&& at >= resolutions.len() || resolutions[at] is None ==> values[i] == 0
        }),
{
}

/// Whether something is recorded of a file.
pub open spec fn is_recorded<'data>(file: FileLayout<'data>) -> bool {
    match file {
        FileLayout::Prelude { .. }
        | FileLayout::Object(_)
        | FileLayout::Dynamic(_)
        | FileLayout::LinkerScript(_) => true,
        FileLayout::SyntheticSymbols { num_symbols, .. } => num_symbols > 0,
        _ => false,
    }
}

/// Of every file that is read or has symbols, something is recorded. Only objects can be skipped, and
/// only of objects are the sizes of sections recorded.
pub proof fn lemma_files_are_recorded<'data>(file: FileLayout<'data>, file_ids: Seq<FileId>)
    ensures
        layout_queries::recorded_of(file, file_ids) is Some <==> is_recorded(file),
        layout_queries::recorded_of(file, file_ids) matches Some(record) ==> {
            &&& record.skippable <==> file is Object
            &&& !(file is Object) ==> record.sizes.len() == 0
            &&& file matches FileLayout::Object(object) ==> record.file_id == object.file_id
                && record.key == object.key@ && record.source_path == object.path@
                && record.num_symbols == object.symbol_id_range.num_symbols
            &&& file matches FileLayout::Dynamic(other) ==> record.file_id == other.file_id
                && record.key == other.key@ && record.source_path == other.path@
                && record.num_symbols == other.symbol_id_range.num_symbols
        },
{
}

proof fn lemma_records_in<'data>(
    files: Seq<FileLayout<'data>>,
    file_ids: Seq<FileId>,
    count: int,
    i: int,
)
    requires
        0 <= i < count <= files.len(),
        is_recorded(files[i]),
    ensures
        layout_queries::records_in(files, file_ids, count).contains(
            layout_queries::recorded_of(files[i], file_ids)->0,
        ),
    decreases count,
{
    let before = layout_queries::records_in(files, file_ids, count - 1);
    let after = layout_queries::records_in(files, file_ids, count);
    let record = layout_queries::recorded_of(files[i], file_ids)->0;
    if i < count - 1 {
        lemma_records_in(files, file_ids, count - 1, i);
        let k = choose|k: int| 0 <= k < before.len() && before[k] == record;
        assert(after[k] == record);
    } else {
        assert(after[before.len() as int] == record);
    }
}

/// What is recorded of a file is among the records of the link, of whatever group the file is.
pub proof fn lemma_all_files_are_recorded<'data>(
    groups: Seq<Vec<FileLayout<'data>>>,
    file_ids: Seq<FileId>,
    count: int,
    g: int,
    i: int,
)
    requires
        0 <= g < count <= groups.len(),
        0 <= i < groups[g]@.len(),
        is_recorded(groups[g]@[i]),
    ensures
        layout_queries::all_records(groups, file_ids, count).contains(
            layout_queries::recorded_of(groups[g]@[i], file_ids)->0,
        ),
    decreases count,
{
    let record: RecordContents = layout_queries::recorded_of(groups[g]@[i], file_ids)->0;
    let before = layout_queries::all_records(groups, file_ids, count - 1);
    let last = groups[count - 1]@;
    let own = layout_queries::records_in(last, file_ids, last.len() as int);
    let all = layout_queries::all_records(groups, file_ids, count);
    if g < count - 1 {
        lemma_all_files_are_recorded(groups, file_ids, count - 1, g, i);
        let k = choose|k: int| 0 <= k < before.len() && before[k] == record;
        assert(all[k] == record);
    } else {
        lemma_records_in(last, file_ids, last.len() as int, i);
        let k = choose|k: int| 0 <= k < own.len() && own[k] == record;
        assert(all[before.len() + k] == record);
    }
}

proof fn lemma_object_positions<'data>(
    files: Seq<FileLayout<'data>>,
    group: int,
    count: int,
    f: int,
)
    requires
        0 <= count <= files.len(),
    ensures
        layout_queries::object_positions(files, group, count).contains((group, f)) <==> 0 <= f
            < count && files[f] is Object,
        forall|k: int|
            0 <= k < layout_queries::object_positions(files, group, count).len() ==> (
            #[trigger] layout_queries::object_positions(files, group, count)[k]).0 == group,
    decreases count,
{
    let after = layout_queries::object_positions(files, group, count);
    if count > 0 {
        lemma_object_positions(files, group, count - 1, f);
        let before = layout_queries::object_positions(files, group, count - 1);
        if before.contains((group, f)) {
            let k = choose|k: int| 0 <= k < before.len() && before[k] == (group, f);
            assert(after[k] == (group, f));
        }
        if after.contains((group, f)) {
            let k = choose|k: int| 0 <= k < after.len() && after[k] == (group, f);
            if k < before.len() {
                assert(before[k] == (group, f));
            }
        }
        if f == count - 1 && files[f] is Object {
            assert(after[before.len() as int] == (group, f));
        }
    }
}

/// Every object of every group is described for other tools, and nothing but objects.
pub proof fn lemma_all_objects_are_described<'data>(
    groups: Seq<Vec<FileLayout<'data>>>,
    count: int,
    g: int,
    f: int,
)
    requires
        0 <= count <= groups.len(),
    ensures
        layout_queries::all_object_positions(groups, count).contains((g, f)) <==> 0 <= g < count
            && 0 <= f < groups[g]@.len() && groups[g]@[f] is Object,
    decreases count,
{
    let all = layout_queries::all_object_positions(groups, count);
    if count > 0 {
        lemma_all_objects_are_described(groups, count - 1, g, f);
        let last = groups[count - 1]@;
        lemma_object_positions(last, count - 1, last.len() as int, f);
        let before = layout_queries::all_object_positions(groups, count - 1);
        let own = layout_queries::object_positions(last, count - 1, last.len() as int);
        if all.contains((g, f)) {
            let k = choose|k: int| 0 <= k < all.len() && all[k] == (g, f);
            if k < before.len() {
                assert(before[k] == (g, f));
            } else {
                assert(own[k - before.len()] == (g, f));
            }
        }
        if before.contains((g, f)) {
            let k = choose|k: int| 0 <= k < before.len() && before[k] == (g, f);
            assert(all[k] == (g, f));
        }
        if g == count - 1 && own.contains((g, f)) {
            let k = choose|k: int| 0 <= k < own.len() && own[k] == (g, f);
            assert(all[before.len() + k] == (g, f));
        }
    }
}

/// The value of an expression that does not speak of the next section does not depend on it.
pub proof fn lemma_next_section_matters_only_if_mentioned<'data>(
    expression: Expression<'data>,
    env: EnvView<'data>,
    next_section: (u64, u64),
)
    requires
        !expression::mentions_next_section(expression),
    ensures
        expression_eval::value_of(expression, EnvView { next_section, ..env })
            == expression_eval::value_of(expression, env),
    decreases expression,
{
    match expression {
        Expression::Absolute(inner) | Expression::Log2Ceil(inner) => {
            lemma_next_section_matters_only_if_mentioned(*inner, env, next_section);
        },
        Expression::Assert(command) => {
            lemma_next_section_matters_only_if_mentioned(
                *command.expression,
                env,
                next_section,
            );
        },
        Expression::Align(alignment, value) => {
            lemma_next_section_matters_only_if_mentioned(*alignment, env, next_section);
            if value is Some {
                lemma_next_section_matters_only_if_mentioned(*(value->0), env, next_section);
            }
        },
        Expression::Add(l, r)
        | Expression::Subtract(l, r)
        | Expression::Multiply(l, r)
        | Expression::Divide(l, r)
        | Expression::Modulo(l, r)
        | Expression::LessThan(l, r)
        | Expression::GreaterThan(l, r)
        | Expression::LessEqual(l, r)
        | Expression::GreaterEqual(l, r)
        | Expression::Equal(l, r)
        | Expression::NotEqual(l, r)
        | Expression::Min(l, r)
        | Expression::Max(l, r) => {
            lemma_next_section_matters_only_if_mentioned(*l, env, next_section);
            lemma_next_section_matters_only_if_mentioned(*r, env, next_section);
        },
        _ => {},
    }
}

} // verus!
