//! How much the symbols of a group add to the output.
use crate::groups::FileState;
use crate::output_section_part_map::OutputSectionPartMap;
use crate::resolution;
use crate::resolution::EntryParts;
use crate::symbol_id::{SymbolId, SymbolIdRange};
use crate::value_flags::ValueFlags;
use vstd::prelude::*;

verus! {

/// What the entries of the first `count` symbols of a range add to a part. Only definitions have
/// entries.
pub open spec fn symbols_reserve(
    definitions: Seq<SymbolId>,
    flags: Seq<ValueFlags>,
    range: SymbolIdRange,
    parts: EntryParts,
    part: u32,
    count: int,
) -> int
    decreases count,
{
    if count <= 0 {
        0
    } else {
        let id = range.id_at(count - 1);
        symbols_reserve(definitions, flags, range, parts, part, count - 1) + if definitions[id.0 as int]
            == id {
            resolution::reserved(flags[id.0 as int], parts, part)
        } else {
            0
        }
    }
}

proof fn lemma_symbols_reserve_bounds(
    definitions: Seq<SymbolId>,
    flags: Seq<ValueFlags>,
    range: SymbolIdRange,
    parts: EntryParts,
    part: u32,
    count: int,
    total: int,
)
    requires
        0 <= count <= total,
    ensures
        0 <= symbols_reserve(definitions, flags, range, parts, part, count) <= symbols_reserve(
            definitions,
            flags,
            range,
            parts,
            part,
            total,
        ) <= 12 * total,
    decreases total,
{
    if total > 0 {
        if count < total {
            lemma_symbols_reserve_bounds(
                definitions,
                flags,
                range,
                parts,
                part,
                count,
                total - 1,
            );
        } else {
            lemma_symbols_reserve_bounds(
                definitions,
                flags,
                range,
                parts,
                part,
                total - 1,
                total - 1,
            );
        }
    }
}

/// Whether the entries of the symbols of a file fit into the parts.
pub open spec fn entries_fit(
    sizes: Map<u32, u64>,
    definitions: Seq<SymbolId>,
    flags: Seq<ValueFlags>,
    range: SymbolIdRange,
    parts: EntryParts,
) -> bool {
    &&& crate::input_sections::offset_of(sizes, parts.got) + symbols_reserve(
        definitions,
        flags,
        range,
        parts,
        parts.got.0,
        range.num_symbols as int,
    ) <= u64::MAX
    &&& crate::input_sections::offset_of(sizes, parts.plt) + symbols_reserve(
        definitions,
        flags,
        range,
        parts,
        parts.plt.0,
        range.num_symbols as int,
    ) <= u64::MAX
}

/// Reserves the space that the entries of the symbols of a file take up.
pub fn finalise_symbol_sizes(
    mem_sizes: &mut OutputSectionPartMap<u64>,
    definitions: &Vec<SymbolId>,
    flags: &Vec<ValueFlags>,
    range: SymbolIdRange,
    parts: EntryParts,
)
    requires
        old(mem_sizes).wf(),
        parts.got != parts.plt,
        range.wf(),
        range.start_symbol_id.0 + range.num_symbols <= definitions@.len(),
        flags@.len() == definitions@.len(),
        entries_fit(old(mem_sizes)@, definitions@, flags@, range, parts),
    ensures
        final(mem_sizes).wf(),
        final(mem_sizes).dense() == old(mem_sizes).dense(),
        forall|part: u32|
            #![trigger final(mem_sizes).value(part)]
            final(mem_sizes).value(part) == old(mem_sizes).value(part) + symbols_reserve(
                definitions@,
                flags@,
                range,
                parts,
                part,
                range.num_symbols as int,
            ),
{
    let count: usize = range.len();
    let ghost before = *mem_sizes;
    let mut i: usize = 0;
    while i < count
        invariant
            i <= count,
            count == range.num_symbols,
            before == *old(mem_sizes),
            mem_sizes.wf(),
            mem_sizes.dense() == before.dense(),
            parts.got != parts.plt,
            range.wf(),
            range.start_symbol_id.0 + range.num_symbols <= definitions@.len(),
            flags@.len() == definitions@.len(),
            entries_fit(before@, definitions@, flags@, range, parts),
            forall|part: u32|
                #![trigger mem_sizes.value(part)]
                mem_sizes.value(part) == before.value(part) + symbols_reserve(
                    definitions@,
                    flags@,
                    range,
                    parts,
                    part,
                    i as int,
                ),
        decreases count - i,
    {
        let id: SymbolId = range.offset_to_id(i);
        let index: usize = id.as_usize();
        if definitions[index].0 == id.0 {
            proof {
                lemma_symbols_reserve_bounds(
                    definitions@,
                    flags@,
                    range,
                    parts,
                    parts.got.0,
                    i + 1,
                    count as int,
                );
                lemma_symbols_reserve_bounds(
                    definitions@,
                    flags@,
                    range,
                    parts,
                    parts.plt.0,
                    i + 1,
                    count as int,
                );
            }
            let ghost so_far = *mem_sizes;
            resolution::allocate_resolution(flags[index], mem_sizes, parts);
            assert forall|part: u32|
                #![trigger mem_sizes.value(part)]
                mem_sizes.value(part) == before.value(part) + symbols_reserve(
                    definitions@,
                    flags@,
                    range,
                    parts,
                    part,
                    i + 1,
                ) by {
                assert(so_far.value(part) == before.value(part) + symbols_reserve(
                    definitions@,
                    flags@,
                    range,
                    parts,
                    part,
                    i as int,
                ));
            }
        }
        i = i + 1;
    }
}

/// What the entries of the symbols of the first `count` files of a group add to a part.
pub open spec fn files_reserve(
    files: Seq<FileState>,
    definitions: Seq<SymbolId>,
    flags: Seq<ValueFlags>,
    parts: EntryParts,
    part: u32,
    count: int,
) -> int
    decreases count,
{
    if count <= 0 {
        0
    } else {
        let file = files[count - 1];
        files_reserve(files, definitions, flags, parts, part, count - 1)
            + if file.spec_size_steps().symbols {
            let range = file.spec_symbol_id_range();
            symbols_reserve(definitions, flags, range, parts, part, range.num_symbols as int)
        } else {
            0
        }
    }
}

/// The size of a part is not a 64-bit number.
#[derive(Clone, Copy, Debug, PartialEq, Eq, Structural)]
pub struct SizeOverflow;

fn fits(
    mem_sizes: &OutputSectionPartMap<u64>,
    definitions: &Vec<SymbolId>,
    flags: &Vec<ValueFlags>,
    range: SymbolIdRange,
    parts: EntryParts,
) -> (fit: bool)
    requires
        mem_sizes.wf(),
        parts.got != parts.plt,
        range.wf(),
        range.start_symbol_id.0 + range.num_symbols <= definitions@.len(),
        flags@.len() == definitions@.len(),
    ensures
        fit == entries_fit(mem_sizes@, definitions@, flags@, range, parts),
{
    let count: usize = range.len();
    let mut got: u64 = 0;
    let mut plt: u64 = 0;
    let mut i: usize = 0;
    while i < count
        invariant
            i <= count,
            count == range.num_symbols,
            count <= u32::MAX,
            parts.got != parts.plt,
            range.wf(),
            range.start_symbol_id.0 + range.num_symbols <= definitions@.len(),
            flags@.len() == definitions@.len(),
            got == symbols_reserve(definitions@, flags@, range, parts, parts.got.0, i as int),
            plt == symbols_reserve(definitions@, flags@, range, parts, parts.plt.0, i as int),
        decreases count - i,
    {
        let id: SymbolId = range.offset_to_id(i);
        let index: usize = id.as_usize();
        proof {
            lemma_symbols_reserve_bounds(
                definitions@,
                flags@,
                range,
                parts,
                parts.got.0,
                i as int,
                i as int,
            );
            lemma_symbols_reserve_bounds(
                definitions@,
                flags@,
                range,
                parts,
                parts.plt.0,
                i as int,
                i as int,
            );
        }
        if definitions[index].0 == id.0 {
            let needed: ValueFlags = flags[index];
            if needed.dynamic && needed.plt {
                plt = plt + resolution::PLT_ENTRY_SIZE;
            }
            if needed.dynamic && needed.got {
                got = got + resolution::GOT_ENTRY_SIZE;
            }
        }
        i = i + 1;
    }
    proof {
        lemma_symbols_reserve_bounds(
            definitions@,
            flags@,
            range,
            parts,
            parts.got.0,
            count as int,
            count as int,
        );
        lemma_symbols_reserve_bounds(
            definitions@,
            flags@,
            range,
            parts,
            parts.plt.0,
            count as int,
            count as int,
        );
    }
    mem_sizes.get(parts.got).checked_add(got).is_some()
        && mem_sizes.get(parts.plt).checked_add(plt).is_some()
}

/// Reserves the space that the entries of the symbols of the files of a group take up. Fails if
/// the size of a part is not a 64-bit number.
pub fn finalise_group_sizes(
    files: &Vec<FileState>,
    mem_sizes: &mut OutputSectionPartMap<u64>,
    definitions: &Vec<SymbolId>,
    flags: &Vec<ValueFlags>,
    parts: EntryParts,
) -> (result: Result<(), SizeOverflow>)
    requires
        old(mem_sizes).wf(),
        parts.got != parts.plt,
        flags@.len() == definitions@.len(),
        forall|i: int|
            0 <= i < files@.len() ==> (#[trigger] files@[i]).spec_symbol_id_range().wf()
                && files@[i].spec_symbol_id_range().start_symbol_id.0
                + files@[i].spec_symbol_id_range().num_symbols <= definitions@.len(),
    ensures
        final(mem_sizes).wf(),
        final(mem_sizes).dense() == old(mem_sizes).dense(),
        match result {
            Ok(_) => forall|part: u32|
                #![trigger final(mem_sizes).value(part)]
                final(mem_sizes).value(part) == old(mem_sizes).value(part) + files_reserve(
                    files@,
                    definitions@,
                    flags@,
                    parts,
                    part,
                    files@.len() as int,
                ),
            Err(_) => old(mem_sizes).value(parts.got.0) + files_reserve(
                files@,
                definitions@,
                flags@,
                parts,
                parts.got.0,
                files@.len() as int,
            ) > u64::MAX || old(mem_sizes).value(parts.plt.0)
                + files_reserve(
                files@,
                definitions@,
                flags@,
                parts,
                parts.plt.0,
                files@.len() as int,
            ) > u64::MAX,
        },
{
    let ghost before = *mem_sizes;
    let mut i: usize = 0;
    while i < files.len()
        invariant
            i <= files@.len(),
            before == *old(mem_sizes),
            mem_sizes.wf(),
            mem_sizes.dense() == before.dense(),
            parts.got != parts.plt,
            flags@.len() == definitions@.len(),
            forall|i: int|
                0 <= i < files@.len() ==> (#[trigger] files@[i]).spec_symbol_id_range().wf()
                    && files@[i].spec_symbol_id_range().start_symbol_id.0
                    + files@[i].spec_symbol_id_range().num_symbols <= definitions@.len(),
            forall|part: u32|
                #![trigger mem_sizes.value(part)]
                mem_sizes.value(part) == before.value(part) + files_reserve(
                    files@,
                    definitions@,
                    flags@,
                    parts,
                    part,
                    i as int,
                ),
        decreases files@.len() - i,
    {
        if files[i].size_steps().symbols {
            let range: SymbolIdRange = files[i].symbol_id_range();
            assert(files@[i as int].spec_symbol_id_range() == range);
            let ghost so_far = *mem_sizes;
            if !fits(mem_sizes, definitions, flags, range, parts) {
                proof {
                    assert(so_far.value(parts.got.0) == crate::input_sections::offset_of(
                        so_far@,
                        parts.got,
                    ));
                    assert(so_far.value(parts.plt.0) == crate::input_sections::offset_of(
                        so_far@,
                        parts.plt,
                    ));
                    lemma_files_reserve_grows(
                        files@,
                        definitions@,
                        flags@,
                        parts,
                        parts.got.0,
                        i + 1,
                        files@.len() as int,
                    );
                    lemma_files_reserve_grows(
                        files@,
                        definitions@,
                        flags@,
                        parts,
                        parts.plt.0,
                        i + 1,
                        files@.len() as int,
                    );
                }
                return Err(SizeOverflow);
            }
            finalise_symbol_sizes(mem_sizes, definitions, flags, range, parts);
            assert forall|part: u32|
                #![trigger mem_sizes.value(part)]
                mem_sizes.value(part) == before.value(part) + files_reserve(
                    files@,
                    definitions@,
                    flags@,
                    parts,
                    part,
                    i + 1,
                ) by {
                assert(so_far.value(part) == before.value(part) + files_reserve(
                    files@,
                    definitions@,
                    flags@,
                    parts,
                    part,
                    i as int,
                ));
            }
        }
        i = i + 1;
    }
    Ok(())
}

proof fn lemma_files_reserve_grows(
    files: Seq<FileState>,
    definitions: Seq<SymbolId>,
    flags: Seq<ValueFlags>,
    parts: EntryParts,
    part: u32,
    count: int,
    total: int,
)
    requires
        0 <= count <= total,
    ensures
        files_reserve(files, definitions, flags, parts, part, count) <= files_reserve(
            files,
            definitions,
            flags,
            parts,
            part,
            total,
        ),
    decreases total,
{
    if count < total {
        let range = files[total - 1].spec_symbol_id_range();
        lemma_symbols_reserve_bounds(
            definitions,
            flags,
            range,
            parts,
            part,
            range.num_symbols as int,
            range.num_symbols as int,
        );
        lemma_files_reserve_grows(files, definitions, flags, parts, part, count, total - 1);
    }
}

} // verus!
