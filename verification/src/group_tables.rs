//! Where the symbols and strings of a group start in the tables of the output.
use crate::input_sections;
use crate::layout_state;
use crate::output_section_id::{OutputSectionId, PartId};
use crate::output_section_map::OutputSectionMap;
use crate::output_section_part_map::OutputSectionPartMap;
use crate::record_layout::OutputRecordLayout;
use vstd::prelude::*;

verus! {

/// A table of the output: a section with one part.
#[derive(Clone, Copy, Debug, PartialEq, Eq, Structural)]
pub struct TablePart {
    pub section_id: OutputSectionId,
    pub part_id: PartId,
}

/// The tables that the output has.
#[derive(Clone, Copy, Debug, PartialEq, Eq, Structural)]
pub struct TableParts {
    pub strtab: Option<TablePart>,
    pub symtab_local: Option<TablePart>,
    pub symtab_global: Option<TablePart>,
    pub symtab_shndx_local: Option<TablePart>,
    pub symtab_shndx_global: Option<TablePart>,
    pub gdb_index: Option<TablePart>,
    pub dynstr: Option<TablePart>,
}

/// Where a group starts in the tables.
#[derive(Clone, Copy, Debug, PartialEq, Eq, Structural)]
pub struct TableStarts {
    pub strtab_start_offset: u32,
    pub dynstr_start_offset: u32,
    pub symtab_local_start_index: u32,
    pub symtab_global_start_index: u32,
}

/// Why the tables cannot be laid out.
#[derive(Clone, Copy, Debug, PartialEq, Eq, Structural)]
pub enum TableError {
    /// A group starts before its table.
    BeforeTable(OutputSectionId),
    /// The table of strings is too large for 32-bit offsets.
    StringTableTooLarge,
    Overflow,
}

/// How far into its table a group starts. Tables that the output does not have start at 0.
pub open spec fn offset_in_table(
    table: Option<TablePart>,
    offsets: Map<u32, u64>,
    layouts: Seq<OutputRecordLayout>,
) -> Result<u64, TableError> {
    match table {
        None => Ok(0),
        Some(table) => {
            let offset = input_sections::offset_of(offsets, table.part_id);
            let start = layouts[table.section_id.0 as int].mem_offset;
            if offset < start {
                Err(TableError::BeforeTable(table.section_id))
            } else {
                Ok((offset - start) as u64)
            }
        },
    }
}

/// The offsets after what a group adds to a table.
pub open spec fn table_advanced(
    table: Option<TablePart>,
    offsets: Map<u32, u64>,
    sizes: Map<u32, u64>,
) -> Result<Map<u32, u64>, TableError> {
    match table {
        None => Ok(offsets),
        Some(table) => match layout_state::plus(
            input_sections::offset_of(offsets, table.part_id),
            input_sections::offset_of(sizes, table.part_id),
        ) {
            None => Err(TableError::Overflow),
            Some(end) => Ok(offsets.insert(table.part_id.0, end)),
        },
    }
}

/// The offsets after what a group adds to the first `count` of some tables.
pub open spec fn tables_advanced(
    tables: Seq<Option<TablePart>>,
    offsets: Map<u32, u64>,
    sizes: Map<u32, u64>,
    count: int,
) -> Result<Map<u32, u64>, TableError>
    decreases count,
{
    if count <= 0 {
        Ok(offsets)
    } else {
        match tables_advanced(tables, offsets, sizes, count - 1) {
            Err(error) => Err(error),
            Ok(before) => table_advanced(tables[count - 1], before, sizes),
        }
    }
}

/// The tables whose offsets only move on.
pub open spec fn plain_tables(tables: TableParts) -> Seq<Option<TablePart>> {
    seq![
        tables.symtab_local,
        tables.symtab_global,
        tables.symtab_shndx_local,
        tables.symtab_shndx_global,
        tables.gdb_index,
    ]
}

/// Where the strings of a group start, and the offsets after the symbols and strings of the group.
pub open spec fn strings_and_symbols(
    tables: TableParts,
    offsets: Map<u32, u64>,
    sizes: Map<u32, u64>,
    layouts: Seq<OutputRecordLayout>,
) -> Result<(u32, Map<u32, u64>), TableError> {
    match offset_in_table(tables.strtab, offsets, layouts) {
        Err(error) => Err(error),
        Ok(start) => if start > u32::MAX {
            Err(TableError::StringTableTooLarge)
        } else {
            match table_advanced(tables.strtab, offsets, sizes) {
                Err(error) => Err(error),
                Ok(after) => match tables_advanced(plain_tables(tables), after, sizes, 5) {
                    Err(error) => Err(error),
                    Ok(end) => Ok((start as u32, end)),
                },
            }
        },
    }
}

/// Where a group starts in all tables, and the offsets after it.
pub open spec fn group_in_tables(
    tables: TableParts,
    offsets: Map<u32, u64>,
    sizes: Map<u32, u64>,
    layouts: Seq<OutputRecordLayout>,
    entry_size: u64,
) -> Result<(TableStarts, Map<u32, u64>), TableError> {
    match (
        offset_in_table(tables.symtab_local, offsets, layouts),
        offset_in_table(tables.symtab_global, offsets, layouts),
    ) {
        (Err(error), _) => Err(error),
        (_, Err(error)) => Err(error),
        (Ok(local), Ok(global)) => match strings_and_symbols(tables, offsets, sizes, layouts) {
            Err(error) => Err(error),
            Ok((strtab_start_offset, after)) => match offset_in_table(
                tables.dynstr,
                after,
                layouts,
            ) {
                Err(error) => Err(error),
                Ok(dynstr) => match table_advanced(tables.dynstr, after, sizes) {
                    Err(error) => Err(error),
                    Ok(end) => Ok(
                        (
                            TableStarts {
                                strtab_start_offset,
                                dynstr_start_offset: dynstr as u32,
                                symtab_local_start_index: (local / entry_size) as u32,
                                symtab_global_start_index: (global / entry_size) as u32,
                            },
                            end,
                        ),
                    ),
                },
            },
        },
    }
}

/// Whether a table is one of the sections of the output.
pub open spec fn table_exists(table: Option<TablePart>, count: int) -> bool {
    table matches Some(table) ==> table.section_id.0 < count
}

/// Whether all tables are sections of the output.
pub open spec fn tables_exist(tables: TableParts, count: int) -> bool {
    &&& table_exists(tables.strtab, count)
    &&& table_exists(tables.symtab_local, count)
    &&& table_exists(tables.symtab_global, count)
    &&& table_exists(tables.symtab_shndx_local, count)
    &&& table_exists(tables.symtab_shndx_global, count)
    &&& table_exists(tables.gdb_index, count)
    &&& table_exists(tables.dynstr, count)
}

fn find_offset_in_table(
    table: Option<TablePart>,
    offsets: &OutputSectionPartMap<u64>,
    layouts: &OutputSectionMap<OutputRecordLayout>,
) -> (offset: Result<u64, TableError>)
    requires
        offsets.wf(),
        table_exists(table, layouts@.len() as int),
    ensures
        offset == offset_in_table(table, offsets@, layouts@),
{
    match table {
        None => Ok(0),
        Some(table) => {
            let offset: u64 = offsets.get(table.part_id);
            let start: u64 = layouts.get(table.section_id).mem_offset;
            if offset < start {
                Err(TableError::BeforeTable(table.section_id))
            } else {
                Ok(offset - start)
            }
        },
    }
}

fn advance_table(
    table: Option<TablePart>,
    offsets: &mut OutputSectionPartMap<u64>,
    sizes: &OutputSectionPartMap<u64>,
) -> (result: Result<(), TableError>)
    requires
        old(offsets).wf(),
        sizes.wf(),
    ensures
        final(offsets).wf(),
        final(offsets).dense() == old(offsets).dense(),
        match (result, table_advanced(table, old(offsets)@, sizes@)) {
            (Ok(_), Ok(after)) => final(offsets)@ == after,
            (Err(error), Err(expected)) => error == expected,
            _ => false,
        },
{
    if let Some(table) = table {
        let size: u64 = sizes.get(table.part_id);
        if offsets.get(table.part_id).checked_add(size).is_none() {
            return Err(TableError::Overflow);
        }
        offsets.increment(table.part_id, size);
    }
    Ok(())
}

/// Moves the offsets of the tables of symbols and strings on by what a group adds to them. Returns
/// where its strings start.
pub fn finalise_common_layout(
    tables: TableParts,
    offsets: &mut OutputSectionPartMap<u64>,
    sizes: &OutputSectionPartMap<u64>,
    layouts: &OutputSectionMap<OutputRecordLayout>,
) -> (start: Result<u32, TableError>)
    requires
        old(offsets).wf(),
        sizes.wf(),
        tables_exist(tables, layouts@.len() as int),
    ensures
        final(offsets).wf(),
        final(offsets).dense() == old(offsets).dense(),
        match (start, strings_and_symbols(tables, old(offsets)@, sizes@, layouts@)) {
            (Ok(start), Ok((expected, after))) => start == expected && final(offsets)@ == after,
            (Err(error), Err(expected)) => error == expected,
            _ => false,
        },
{
    let start: u64 = match find_offset_in_table(tables.strtab, offsets, layouts) {
        Ok(start) => start,
        Err(error) => {
            return Err(error);
        },
    };
    if start > u32::MAX as u64 {
        return Err(TableError::StringTableTooLarge);
    }
    match advance_table(tables.strtab, offsets, sizes) {
        Ok(_) => {},
        Err(error) => {
            return Err(error);
        },
    }
    let plain: [Option<TablePart>; 5] = [
        tables.symtab_local,
        tables.symtab_global,
        tables.symtab_shndx_local,
        tables.symtab_shndx_global,
        tables.gdb_index,
    ];
    assert(plain@ =~= plain_tables(tables));
    let ghost before = offsets@;
    let mut i: usize = 0;
    while i < 5
        invariant
            i <= 5,
            plain@ == plain_tables(tables),
            offsets.wf(),
            offsets.dense() == old(offsets).dense(),
            sizes.wf(),
            tables_advanced(plain_tables(tables), before, sizes@, i as int) == Ok::<_, TableError>(
                offsets@,
            ),
            table_advanced(tables.strtab, old(offsets)@, sizes@) == Ok::<_, TableError>(before),
            offset_in_table(tables.strtab, old(offsets)@, layouts@) == Ok::<_, TableError>(start),
            start <= u32::MAX,
        decreases 5 - i,
    {
        match advance_table(plain[i], offsets, sizes) {
            Ok(_) => {},
            Err(error) => {
                proof {
                    lemma_tables_error(plain_tables(tables), before, sizes@, i + 1, 5);
                }
                return Err(error);
            },
        }
        i = i + 1;
    }
    Ok(start as u32)
}

proof fn lemma_tables_error(
    tables: Seq<Option<TablePart>>,
    offsets: Map<u32, u64>,
    sizes: Map<u32, u64>,
    count: int,
    total: int,
)
    requires
        0 <= count <= total,
        tables_advanced(tables, offsets, sizes, count) is Err,
    ensures
        tables_advanced(tables, offsets, sizes, total) == tables_advanced(
            tables,
            offsets,
            sizes,
            count,
        ),
    decreases total - count,
{
    if count < total {
        lemma_tables_error(tables, offsets, sizes, count + 1, total);
    }
}

/// Finds where a group starts in all tables and moves their offsets on by what the group adds.
pub fn finalise_group_tables(
    tables: TableParts,
    offsets: &mut OutputSectionPartMap<u64>,
    sizes: &OutputSectionPartMap<u64>,
    layouts: &OutputSectionMap<OutputRecordLayout>,
    entry_size: u64,
) -> (starts: Result<TableStarts, TableError>)
    requires
        old(offsets).wf(),
        sizes.wf(),
        tables_exist(tables, layouts@.len() as int),
        entry_size > 0,
    ensures
        final(offsets).wf(),
        final(offsets).dense() == old(offsets).dense(),
        match (
            starts,
            group_in_tables(tables, old(offsets)@, sizes@, layouts@, entry_size),
        ) {
            (Ok(starts), Ok((expected, after))) => starts == expected && final(offsets)@ == after,
            (Err(error), Err(expected)) => error == expected,
            _ => false,
        },
{
    let local: u64 = match find_offset_in_table(tables.symtab_local, offsets, layouts) {
        Ok(offset) => offset,
        Err(error) => {
            return Err(error);
        },
    };
    let global: u64 = match find_offset_in_table(tables.symtab_global, offsets, layouts) {
        Ok(offset) => offset,
        Err(error) => {
            return Err(error);
        },
    };
    let strtab_start_offset: u32 = match finalise_common_layout(tables, offsets, sizes, layouts) {
        Ok(start) => start,
        Err(error) => {
            return Err(error);
        },
    };
    let dynstr: u64 = match find_offset_in_table(tables.dynstr, offsets, layouts) {
        Ok(offset) => offset,
        Err(error) => {
            return Err(error);
        },
    };
    match advance_table(tables.dynstr, offsets, sizes) {
        Ok(_) => {},
        Err(error) => {
            return Err(error);
        },
    }
    Ok(
        TableStarts {
            strtab_start_offset,
            dynstr_start_offset: dynstr as u32,
            symtab_local_start_index: (local / entry_size) as u32,
            symtab_global_start_index: (global / entry_size) as u32,
        },
    )
}

} // verus!
