//! Gives addresses to the sections and symbols of all files of a group.
use crate::group_tables;
use crate::group_tables::{finalise_group_tables, TableError, TableParts, TableStarts};
use crate::groups::{ObjectState, SymbolSection};
use crate::input_sections;
use crate::internal_symbols;
use crate::internal_symbols::{
    create_internal_symbol_resolution, default_create_resolutions, InternalContext,
    SymbolPlacement,
};
use crate::object_layout;
use crate::object_layout::{
    finalise_layout, ObjectLayout, OwnedThunks, SectionContext, SymbolInputs, SymbolsView,
};
use crate::output_section_part_map::OutputSectionPartMap;
use crate::resolution::{EntryParts, Resolution, ResolutionError};
use crate::symbol_id::{SymbolId, SymbolIdRange};
use crate::value_flags::ValueFlags;
use vstd::prelude::*;

verus! {

/// A symbol that the linker or a linker script defines.
pub struct InternalSymbol<'data> {
    pub has_name: bool,
    pub placement: SymbolPlacement<'data>,
}

/// A file of a group.
pub enum FileToPlace<'a, 'data> {
    Object {
        object: &'a ObjectState,
        /// For each symbol, the address of the merged string that it names.
        merged_strings: &'a Vec<Option<u64>>,
        thunks: Option<OwnedThunks<'a>>,
    },
    /// A dynamic library, or a description of one.
    Library(SymbolIdRange),
    /// What the linker or a linker script defines.
    Internal { symbol_id_range: SymbolIdRange, symbols: &'a Vec<InternalSymbol<'data>> },
    NotLoaded(SymbolIdRange),
    /// A file without symbols.
    Epilogue,
}

/// A file with the addresses of its symbols.
pub enum PlacedFile {
    Object(ObjectLayout),
    Symbols(Vec<Option<Resolution>>),
}

/// What the addresses of a group depend on besides its files.
pub struct GroupContext<'a, 'data> {
    pub sections: SectionContext<'a, 'data>,
    pub internal: InternalContext<'a, 'data>,
    pub parts: EntryParts,
    pub flags: &'a Vec<ValueFlags>,
    pub definitions: &'a Vec<SymbolId>,
    pub tables: TableParts,
    /// The size of an entry of the symbol table.
    pub entry_size: u64,
}

impl<'a, 'data> GroupContext<'a, 'data> {
    pub open spec fn wf(&self) -> bool {
        &&& self.sections.sections.wf()
        &&& self.internal.wf()
        &&& self.flags@.len() == self.definitions@.len()
        &&& group_tables::tables_exist(
            self.tables,
            self.internal.section_layouts@.len() as int,
        )
        &&& self.entry_size > 0
    }
}

/// Whether the symbols of a range are known.
pub open spec fn range_known(range: SymbolIdRange, count: int) -> bool {
    range.wf() && range.start_symbol_id.0 + range.num_symbols <= count
}

/// Whether what a file refers to exists.
pub open spec fn file_wf<'a, 'data>(
    file: FileToPlace<'a, 'data>,
    ctx: &GroupContext<'a, 'data>,
) -> bool {
    let count = ctx.flags@.len() as int;
    match file {
        FileToPlace::Object { object, merged_strings, .. } => {
            &&& input_sections::inputs_wf(object.inputs@, ctx.sections.sections)
            &&& merged_strings@.len() == object.symbols@.len()
            &&& forall|i: int|
                0 <= i < object.symbols@.len() ==> ((#[trigger] object.symbols@[i]).section matches
                    SymbolSection::InSection(section) ==> section < object.inputs@.len())
            &&& object.symbols@.len() == object.symbol_id_range.num_symbols
            &&& range_known(object.symbol_id_range, count)
        },
        FileToPlace::Library(range) => range_known(range, count),
        FileToPlace::Internal { symbol_id_range, symbols } => {
            &&& range_known(symbol_id_range, count)
            &&& symbols@.len() == symbol_id_range.num_symbols
            &&& forall|i: int|
                0 <= i < symbols@.len() ==> internal_symbols::placement_wf(
                    (#[trigger] symbols@[i]).placement,
                    ctx.internal.sections,
                )
        },
        FileToPlace::NotLoaded(range) => range.wf(),
        FileToPlace::Epilogue => true,
    }
}

/// The number of symbols of a file.
pub open spec fn symbol_count<'a, 'data>(file: FileToPlace<'a, 'data>) -> nat {
    match file {
        FileToPlace::Object { object, .. } => object.symbol_id_range.num_symbols as nat,
        FileToPlace::Library(range) => range.num_symbols as nat,
        FileToPlace::Internal { symbol_id_range, .. } => symbol_id_range.num_symbols as nat,
        FileToPlace::NotLoaded(range) => range.num_symbols as nat,
        FileToPlace::Epilogue => 0,
    }
}

/// The resolutions of the first `count` symbols that the linker or a linker script defines, and the
/// offsets after them.
pub open spec fn internal_resolutions<'a, 'data>(
    range: SymbolIdRange,
    symbols: Seq<InternalSymbol<'data>>,
    ctx: &GroupContext<'a, 'data>,
    offsets: Map<u32, u64>,
    count: int,
) -> Result<(Seq<Option<Resolution>>, Map<u32, u64>), ResolutionError>
    decreases count,
{
    if count <= 0 {
        Ok((Seq::empty(), offsets))
    } else {
        match internal_resolutions(range, symbols, ctx, offsets, count - 1) {
            Err(error) => Err(error),
            Ok((resolutions, before)) => {
                let id = range.id_at(count - 1);
                match internal_symbols::internal_resolved(
                    &ctx.internal,
                    symbols[count - 1].has_name,
                    ctx.definitions@[id.0 as int] == id,
                    ctx.flags@[id.0 as int],
                    symbols[count - 1].placement,
                    before,
                    ctx.parts,
                ) {
                    Err(error) => Err(error),
                    Ok((resolution, after)) => Ok((resolutions.push(resolution), after)),
                }
            },
        }
    }
}

proof fn lemma_internal_error<'a, 'data>(
    range: SymbolIdRange,
    symbols: Seq<InternalSymbol<'data>>,
    ctx: &GroupContext<'a, 'data>,
    offsets: Map<u32, u64>,
    count: int,
    total: int,
)
    requires
        0 <= count <= total,
        internal_resolutions(range, symbols, ctx, offsets, count) is Err,
    ensures
        internal_resolutions(range, symbols, ctx, offsets, total) == internal_resolutions(
            range,
            symbols,
            ctx,
            offsets,
            count,
        ),
    decreases total,
{
    if count < total {
        lemma_internal_error(range, symbols, ctx, offsets, count, total - 1);
    }
}

/// Creates the resolutions of symbols that the linker or a linker script defines. One is written
/// for every symbol.
pub fn create_internal_resolutions<'a, 'data>(
    range: SymbolIdRange,
    symbols: &Vec<InternalSymbol<'data>>,
    ctx: &GroupContext<'a, 'data>,
    offsets: &mut OutputSectionPartMap<u64>,
) -> (result: Result<Vec<Option<Resolution>>, ResolutionError>)
    requires
        ctx.wf(),
        old(offsets).wf(),
        range_known(range, ctx.flags@.len() as int),
        symbols@.len() == range.num_symbols,
        forall|i: int|
            0 <= i < symbols@.len() ==> internal_symbols::placement_wf(
                (#[trigger] symbols@[i]).placement,
                ctx.internal.sections,
            ),
    ensures
        final(offsets).wf(),
        final(offsets).dense() == old(offsets).dense(),
        match internal_resolutions(
            range,
            symbols@,
            ctx,
            old(offsets)@,
            range.num_symbols as int,
        ) {
            Ok((expected, after)) => (result matches Ok(resolutions) && resolutions@ == expected)
                && final(offsets)@ == after,
            Err(error) => result matches Err(e) && e == error,
        },
{
    let ghost start = offsets@;
    let mut resolutions: Vec<Option<Resolution>> = Vec::new();
    let mut i: usize = 0;
    while i < symbols.len()
        invariant
            i <= symbols@.len(),
            start == old(offsets)@,
            ctx.wf(),
            offsets.wf(),
            offsets.dense() == old(offsets).dense(),
            range_known(range, ctx.flags@.len() as int),
            symbols@.len() == range.num_symbols,
            forall|k: int|
                0 <= k < symbols@.len() ==> internal_symbols::placement_wf(
                    (#[trigger] symbols@[k]).placement,
                    ctx.internal.sections,
                ),
            internal_resolutions(range, symbols@, ctx, start, i as int) == Ok::<_, ResolutionError>(
                (resolutions@, offsets@),
            ),
        decreases symbols@.len() - i,
    {
        let symbol: &InternalSymbol<'data> = &symbols[i];
        let id: SymbolId = range.offset_to_id(i);
        let index: usize = id.as_usize();
        match create_internal_symbol_resolution(
            &ctx.internal,
            symbol.has_name,
            ctx.definitions[index] == id,
            ctx.flags[index],
            symbol.placement,
            offsets,
            ctx.parts,
        ) {
            Ok(resolution) => {
                resolutions.push(resolution);
            },
            Err(error) => {
                proof {
                    lemma_internal_error(
                        range,
                        symbols@,
                        ctx,
                        start,
                        i + 1,
                        range.num_symbols as int,
                    );
                }
                return Err(error);
            },
        }
        i = i + 1;
    }
    Ok(resolutions)
}

/// The resolutions of the symbols of a file, and what is taken up after it. One is written for
/// every symbol, and files that are not loaded have none.
pub open spec fn file_resolutions<'a, 'data>(
    file: FileToPlace<'a, 'data>,
    ctx: &GroupContext<'a, 'data>,
    start: SymbolsView,
) -> Result<(Seq<Option<Resolution>>, SymbolsView), ResolutionError> {
    match file {
        FileToPlace::Object { object, merged_strings, thunks } => {
            match object_layout::sections_after(
                object.inputs@,
                &ctx.sections,
                start.offsets,
                object.inputs@.len() as int,
            ) {
                None => Err(ResolutionError::Overflow),
                Some(s) => match object_layout::symbols_after(
                    *object,
                    SymbolInputs {
                        section_resolutions: s.resolutions,
                        merged_strings: merged_strings@,
                        parts: ctx.parts,
                    },
                    ctx.flags@,
                    ctx.definitions@,
                    SymbolsView { offsets: s.offsets, next_dynamic: start.next_dynamic },
                    object.symbols@.len() as int,
                ) {
                    Err(error) => Err(error),
                    Ok((resolutions, after)) => match object_layout::thunks_after(
                        thunks,
                        after.offsets,
                    ) {
                        None => Err(ResolutionError::Overflow),
                        Some((_, offsets)) => Ok(
                            (resolutions, SymbolsView { offsets, next_dynamic: after.next_dynamic }),
                        ),
                    },
                },
            }
        },
        FileToPlace::Library(range) => match internal_symbols::library_resolutions(
            range,
            ctx.flags@,
            ctx.definitions@,
            start.offsets,
            ctx.parts,
            range.num_symbols as int,
        ) {
            Err(error) => Err(error),
            Ok((resolutions, offsets)) => Ok((resolutions, SymbolsView { offsets, ..start })),
        },
        FileToPlace::Internal { symbol_id_range, symbols } => match internal_resolutions(
            symbol_id_range,
            symbols@,
            ctx,
            start.offsets,
            symbol_id_range.num_symbols as int,
        ) {
            Err(error) => Err(error),
            Ok((resolutions, offsets)) => Ok((resolutions, SymbolsView { offsets, ..start })),
        },
        FileToPlace::NotLoaded(range) => Ok(
            (Seq::new(range.num_symbols as nat, |i: int| None), start),
        ),
        FileToPlace::Epilogue => Ok((Seq::empty(), start)),
    }
}

/// Whether a file was placed as it should be.
pub open spec fn is_placed<'a, 'data>(
    placed: PlacedFile,
    file: FileToPlace<'a, 'data>,
    ctx: &GroupContext<'a, 'data>,
    start: SymbolsView,
) -> bool {
    &&& file_resolutions(file, ctx, start) matches Ok((resolutions, end))
    &&& match placed {
        PlacedFile::Object(layout) => {
            &&& layout.resolutions@ == resolutions
            &&& file matches FileToPlace::Object { object, merged_strings, thunks }
            &&& object_layout::is_final_layout(
                Ok(layout),
                *object,
                &ctx.sections,
                merged_strings@,
                ctx.parts,
                ctx.flags@,
                ctx.definitions@,
                thunks,
                start,
                end,
            )
        },
        PlacedFile::Symbols(written) => !(file is Object) && written@ == resolutions,
    }
}

fn no_resolutions(range: SymbolIdRange) -> (resolutions: Vec<Option<Resolution>>)
    requires
        range.wf(),
    ensures
        resolutions@ == Seq::new(range.num_symbols as nat, |i: int| None::<Resolution>),
{
    let mut resolutions: Vec<Option<Resolution>> = Vec::new();
    let mut i: usize = 0;
    while i < range.num_symbols
        invariant
            i <= range.num_symbols,
            resolutions@ == Seq::new(i as nat, |k: int| None::<Resolution>),
        decreases range.num_symbols - i,
    {
        resolutions.push(None);
        i = i + 1;
        assert(resolutions@ =~= Seq::new(i as nat, |k: int| None::<Resolution>));
    }
    resolutions
}

/// Gives addresses to the sections and symbols of a file.
pub fn finalise_file_layout<'a, 'data>(
    file: &FileToPlace<'a, 'data>,
    ctx: &GroupContext<'a, 'data>,
    offsets: &mut OutputSectionPartMap<u64>,
    next_dynamic: &mut Option<u32>,
) -> (result: Result<PlacedFile, ResolutionError>)
    requires
        ctx.wf(),
        file_wf(*file, ctx),
        old(offsets).wf(),
    ensures
        final(offsets).wf(),
        final(offsets).dense() == old(offsets).dense(),
        ({
            let start = SymbolsView { offsets: old(offsets)@, next_dynamic: *old(next_dynamic) };
            match file_resolutions(*file, ctx, start) {
                Ok((_, end)) => {
                    &&& result matches Ok(placed)
                    &&& is_placed(placed, *file, ctx, start)
                    &&& end == SymbolsView {
                        offsets: final(offsets)@,
                        next_dynamic: *final(next_dynamic),
                    }
                },
                Err(error) => result matches Err(e) && e == error,
            }
        }),
{
    match file {
        FileToPlace::Object { object, merged_strings, thunks } => {
            let owned: Option<OwnedThunks<'a>> = match thunks {
                Some(thunks) => Some(
                    OwnedThunks {
                        part_id: thunks.part_id,
                        thunk_size: thunks.thunk_size,
                        symbols: thunks.symbols,
                    },
                ),
                None => None,
            };
            match finalise_layout(
                object,
                &ctx.sections,
                merged_strings,
                ctx.parts,
                ctx.flags,
                ctx.definitions,
                owned,
                offsets,
                next_dynamic,
            ) {
                Ok(layout) => Ok(PlacedFile::Object(layout)),
                Err(error) => Err(error),
            }
        },
        FileToPlace::Library(range) => {
            match default_create_resolutions(
                offsets,
                *range,
                ctx.flags,
                ctx.definitions,
                ctx.parts,
            ) {
                Ok(resolutions) => Ok(PlacedFile::Symbols(resolutions)),
                Err(error) => Err(error),
            }
        },
        FileToPlace::Internal { symbol_id_range, symbols } => {
            match create_internal_resolutions(*symbol_id_range, symbols, ctx, offsets) {
                Ok(resolutions) => Ok(PlacedFile::Symbols(resolutions)),
                Err(error) => Err(error),
            }
        },
        FileToPlace::NotLoaded(range) => Ok(PlacedFile::Symbols(no_resolutions(*range))),
        FileToPlace::Epilogue => Ok(PlacedFile::Symbols(Vec::new())),
    }
}

/// The resolutions of the symbols of the first `count` files of a group, file by file, and what is
/// taken up after them.
pub open spec fn group_resolutions<'a, 'data>(
    files: Seq<FileToPlace<'a, 'data>>,
    ctx: &GroupContext<'a, 'data>,
    start: SymbolsView,
    count: int,
) -> Result<(Seq<Seq<Option<Resolution>>>, SymbolsView), ResolutionError>
    decreases count,
{
    if count <= 0 {
        Ok((Seq::empty(), start))
    } else {
        match group_resolutions(files, ctx, start, count - 1) {
            Err(error) => Err(error),
            Ok((resolutions, before)) => match file_resolutions(files[count - 1], ctx, before) {
                Err(error) => Err(error),
                Ok((file, after)) => Ok((resolutions.push(file), after)),
            },
        }
    }
}

proof fn lemma_group_error<'a, 'data>(
    files: Seq<FileToPlace<'a, 'data>>,
    ctx: &GroupContext<'a, 'data>,
    start: SymbolsView,
    count: int,
    total: int,
)
    requires
        0 <= count <= total,
        group_resolutions(files, ctx, start, count) is Err,
    ensures
        group_resolutions(files, ctx, start, total) == group_resolutions(files, ctx, start, count),
    decreases total,
{
    if count < total {
        lemma_group_error(files, ctx, start, count, total - 1);
    }
}

/// What is taken up before a file of a group.
pub open spec fn before_file<'a, 'data>(
    files: Seq<FileToPlace<'a, 'data>>,
    ctx: &GroupContext<'a, 'data>,
    start: SymbolsView,
    index: int,
) -> SymbolsView {
    (group_resolutions(files, ctx, start, index)->Ok_0).1
}

/// A group with the addresses of its files, and where it starts in the tables.
pub struct GroupLayout {
    pub files: Vec<PlacedFile>,
    pub tables: TableStarts,
}

/// Why a group cannot be laid out.
#[derive(Clone, Copy, Debug, PartialEq, Eq, Structural)]
pub enum GroupError {
    Resolution(ResolutionError),
    Table(TableError),
}

/// What is taken up after a group, and where it starts in the tables. Its files come first.
pub open spec fn group_placed<'a, 'data>(
    files: Seq<FileToPlace<'a, 'data>>,
    sizes: Map<u32, u64>,
    ctx: &GroupContext<'a, 'data>,
    start: SymbolsView,
) -> Result<(TableStarts, SymbolsView), GroupError> {
    match group_resolutions(files, ctx, start, files.len() as int) {
        Err(error) => Err(GroupError::Resolution(error)),
        Ok((_, after)) => match group_tables::group_in_tables(
            ctx.tables,
            after.offsets,
            sizes,
            ctx.internal.section_layouts@,
            ctx.entry_size,
        ) {
            Err(error) => Err(GroupError::Table(error)),
            Ok((tables, offsets)) => Ok((tables, SymbolsView { offsets, ..after })),
        },
    }
}

/// Whether all files of a group were placed as they should be.
pub open spec fn files_placed<'a, 'data>(
    placed: Seq<PlacedFile>,
    files: Seq<FileToPlace<'a, 'data>>,
    ctx: &GroupContext<'a, 'data>,
    start: SymbolsView,
) -> bool {
    &&& placed.len() == files.len()
    &&& forall|i: int|
        0 <= i < files.len() ==> is_placed(
            #[trigger] placed[i],
            files[i],
            ctx,
            before_file(files, ctx, start, i),
        )
}

/// Gives addresses to all files of a group, in order, and finds where the group starts in the
/// tables. `sizes` holds the sizes of the parts of the group.
pub fn finalise_group_layout<'a, 'data>(
    files: &Vec<FileToPlace<'a, 'data>>,
    sizes: &OutputSectionPartMap<u64>,
    ctx: &GroupContext<'a, 'data>,
    offsets: &mut OutputSectionPartMap<u64>,
    next_dynamic: &mut Option<u32>,
) -> (result: Result<GroupLayout, GroupError>)
    requires
        ctx.wf(),
        sizes.wf(),
        old(offsets).wf(),
        forall|i: int| 0 <= i < files@.len() ==> file_wf(#[trigger] files@[i], ctx),
    ensures
        final(offsets).wf(),
        final(offsets).dense() == old(offsets).dense(),
        ({
            let start = SymbolsView { offsets: old(offsets)@, next_dynamic: *old(next_dynamic) };
            match group_placed(files@, sizes@, ctx, start) {
                Ok((tables, end)) => {
                    &&& result matches Ok(layout)
                    &&& layout.tables == tables
                    &&& files_placed(layout.files@, files@, ctx, start)
                    &&& end == SymbolsView {
                        offsets: final(offsets)@,
                        next_dynamic: *final(next_dynamic),
                    }
                },
                Err(error) => result matches Err(e) && e == error,
            }
        }),
{
    let ghost start = SymbolsView { offsets: offsets@, next_dynamic: *next_dynamic };
    let mut placed: Vec<PlacedFile> = Vec::new();
    let mut i: usize = 0;
    while i < files.len()
        invariant
            i <= files@.len(),
            start == (SymbolsView {
                offsets: old(offsets)@,
                next_dynamic: *old(next_dynamic),
            }),
            ctx.wf(),
            offsets.wf(),
            offsets.dense() == old(offsets).dense(),
            forall|k: int| 0 <= k < files@.len() ==> file_wf(#[trigger] files@[k], ctx),
            group_resolutions(files@, ctx, start, i as int) matches Ok((_, s)) && s == (
            SymbolsView { offsets: offsets@, next_dynamic: *next_dynamic }),
            placed@.len() == i,
            forall|k: int|
                0 <= k < i ==> is_placed(
                    #[trigger] placed@[k],
                    files@[k],
                    ctx,
                    before_file(files@, ctx, start, k),
                ),
        decreases files@.len() - i,
    {
        assert(before_file(files@, ctx, start, i as int) == SymbolsView {
            offsets: offsets@,
            next_dynamic: *next_dynamic,
        });
        match finalise_file_layout(&files[i], ctx, offsets, next_dynamic) {
            Ok(file) => {
                placed.push(file);
            },
            Err(error) => {
                proof {
                    lemma_group_error(files@, ctx, start, i + 1, files@.len() as int);
                }
                return Err(GroupError::Resolution(error));
            },
        }
        i = i + 1;
    }
    match finalise_group_tables(
        ctx.tables,
        offsets,
        sizes,
        ctx.internal.section_layouts,
        ctx.entry_size,
    ) {
        Ok(tables) => Ok(GroupLayout { files: placed, tables }),
        Err(error) => Err(GroupError::Table(error)),
    }
}

/// A group that is to be laid out.
pub struct GroupToPlace<'a, 'data> {
    pub files: Vec<FileToPlace<'a, 'data>>,
    /// The sizes of the parts of the group.
    pub sizes: OutputSectionPartMap<u64>,
    /// The first dynamic symbol index of the group.
    pub next_dynamic: Option<u32>,
}

/// What is taken up before a group.
pub open spec fn group_start<'a, 'data>(
    group: GroupToPlace<'a, 'data>,
    start: OutputSectionPartMap<u64>,
) -> SymbolsView {
    SymbolsView { offsets: start@, next_dynamic: group.next_dynamic }
}

/// What is taken up after a group that starts at the given offsets.
pub open spec fn placed_at<'a, 'data>(
    group: GroupToPlace<'a, 'data>,
    start: OutputSectionPartMap<u64>,
    ctx: &GroupContext<'a, 'data>,
) -> Result<(TableStarts, SymbolsView), GroupError> {
    group_placed(group.files@, group.sizes@, ctx, group_start(group, start))
}

/// Whether a group was laid out as it should be.
pub open spec fn is_group_layout<'a, 'data>(
    layout: GroupLayout,
    group: GroupToPlace<'a, 'data>,
    start: OutputSectionPartMap<u64>,
    ctx: &GroupContext<'a, 'data>,
) -> bool {
    &&& placed_at(group, start, ctx) matches Ok((tables, _))
    &&& layout.tables == tables
    &&& files_placed(layout.files@, group.files@, ctx, group_start(group, start))
}

/// Gives addresses to all groups, each from the offsets at which it starts. They do not depend on
/// each other.
pub fn compute_symbols_and_layouts<'a, 'data>(
    groups: &Vec<GroupToPlace<'a, 'data>>,
    starts: &Vec<OutputSectionPartMap<u64>>,
    ctx: &GroupContext<'a, 'data>,
) -> (result: Result<Vec<GroupLayout>, GroupError>)
    requires
        ctx.wf(),
        starts@.len() == groups@.len(),
        forall|g: int| 0 <= g < groups@.len() ==> (#[trigger] starts@[g]).wf(),
        forall|g: int| 0 <= g < groups@.len() ==> (#[trigger] groups@[g]).sizes.wf(),
        forall|g: int, f: int|
            #![trigger groups@[g].files@[f]]
            0 <= g < groups@.len() && 0 <= f < groups@[g].files@.len() ==> file_wf(
                groups@[g].files@[f],
                ctx,
            ),
    ensures
        match result {
            Ok(layouts) => layouts@.len() == groups@.len() && forall|g: int|
                0 <= g < groups@.len() ==> is_group_layout(
                    #[trigger] layouts@[g],
                    groups@[g],
                    starts@[g],
                    ctx,
                ),
            Err(error) => exists|g: int|
                0 <= g < groups@.len() && #[trigger] placed_at(groups@[g], starts@[g], ctx) == Err::<
                    (TableStarts, SymbolsView),
                    GroupError,
                >(error),
        },
{
    let mut layouts: Vec<GroupLayout> = Vec::new();
    let mut g: usize = 0;
    while g < groups.len()
        invariant
            g <= groups@.len(),
            ctx.wf(),
            starts@.len() == groups@.len(),
            forall|k: int| 0 <= k < groups@.len() ==> (#[trigger] starts@[k]).wf(),
            forall|k: int| 0 <= k < groups@.len() ==> (#[trigger] groups@[k]).sizes.wf(),
            forall|k: int, f: int|
                #![trigger groups@[k].files@[f]]
                0 <= k < groups@.len() && 0 <= f < groups@[k].files@.len() ==> file_wf(
                    groups@[k].files@[f],
                    ctx,
                ),
            layouts@.len() == g,
            forall|k: int|
                0 <= k < g ==> is_group_layout(
                    #[trigger] layouts@[k],
                    groups@[k],
                    starts@[k],
                    ctx,
                ),
        decreases groups@.len() - g,
    {
        assert(starts@[g as int].wf());
        assert(groups@[g as int].sizes.wf());
        let group: &GroupToPlace<'a, 'data> = &groups[g];
        assert forall|i: int| 0 <= i < group.files@.len() implies file_wf(
            #[trigger] group.files@[i],
            ctx,
        ) by {
            assert(groups@[g as int].files@[i] == group.files@[i]);
        }
        let mut offsets: OutputSectionPartMap<u64> = starts[g].duplicate();
        let mut next_dynamic: Option<u32> = group.next_dynamic;
        match finalise_group_layout(
            &group.files,
            &group.sizes,
            ctx,
            &mut offsets,
            &mut next_dynamic,
        ) {
            Ok(layout) => {
                layouts.push(layout);
            },
            Err(error) => {
                assert(placed_at(groups@[g as int], starts@[g as int], ctx) == Err::<
                    (TableStarts, SymbolsView),
                    GroupError,
                >(error));
                return Err(error);
            },
        }
        g = g + 1;
    }
    Ok(layouts)
}

proof fn lemma_symbols_written(
    object: ObjectState,
    inputs: SymbolInputs,
    flags: Seq<ValueFlags>,
    definitions: Seq<SymbolId>,
    start: SymbolsView,
    count: int,
)
    requires
        count >= 0,
    ensures
        object_layout::symbols_after(object, inputs, flags, definitions, start, count) matches Ok((
            resolutions,
            _,
        )) ==> resolutions.len() == count,
    decreases count,
{
    if count > 0 {
        lemma_symbols_written(object, inputs, flags, definitions, start, count - 1);
    }
}

proof fn lemma_library_written(
    range: SymbolIdRange,
    flags: Seq<ValueFlags>,
    definitions: Seq<SymbolId>,
    offsets: Map<u32, u64>,
    parts: EntryParts,
    count: int,
)
    requires
        count >= 0,
    ensures
        internal_symbols::library_resolutions(
            range,
            flags,
            definitions,
            offsets,
            parts,
            count,
        ) matches Ok((resolutions, _)) ==> resolutions.len() == count,
    decreases count,
{
    if count > 0 {
        lemma_library_written(range, flags, definitions, offsets, parts, count - 1);
    }
}

proof fn lemma_internal_written<'a, 'data>(
    range: SymbolIdRange,
    symbols: Seq<InternalSymbol<'data>>,
    ctx: &GroupContext<'a, 'data>,
    offsets: Map<u32, u64>,
    count: int,
)
    requires
        count >= 0,
    ensures
        internal_resolutions(range, symbols, ctx, offsets, count) matches Ok((resolutions, _))
            ==> resolutions.len() == count,
    decreases count,
{
    if count > 0 {
        lemma_internal_written(range, symbols, ctx, offsets, count - 1);
    }
}

/// The first of the resolutions of a file in the list of all resolutions of its group.
pub open spec fn first_resolution<'a, 'data>(
    files: Seq<FileToPlace<'a, 'data>>,
    index: int,
) -> nat
    decreases index,
{
    if index <= 0 {
        0
    } else {
        first_resolution(files, index - 1) + symbol_count(files[index - 1])
    }
}

/// All resolutions of the first `count` files of a group, one after the other.
pub open spec fn all_resolutions(
    resolutions: Seq<Seq<Option<Resolution>>>,
    count: int,
) -> Seq<Option<Resolution>>
    decreases count,
{
    if count <= 0 {
        Seq::empty()
    } else {
        all_resolutions(resolutions, count - 1) + resolutions[count - 1]
    }
}

proof fn lemma_file_written<'a, 'data>(
    file: FileToPlace<'a, 'data>,
    ctx: &GroupContext<'a, 'data>,
    start: SymbolsView,
)
    requires
        file_wf(file, ctx),
    ensures
        file_resolutions(file, ctx, start) matches Ok((resolutions, _)) ==> resolutions.len()
            == symbol_count(file),
{
    match file {
        FileToPlace::Object { object, merged_strings, .. } => {
            if let Some(s) = object_layout::sections_after(
                object.inputs@,
                &ctx.sections,
                start.offsets,
                object.inputs@.len() as int,
            ) {
                lemma_symbols_written(
                    *object,
                    SymbolInputs {
                        section_resolutions: s.resolutions,
                        merged_strings: merged_strings@,
                        parts: ctx.parts,
                    },
                    ctx.flags@,
                    ctx.definitions@,
                    SymbolsView { offsets: s.offsets, next_dynamic: start.next_dynamic },
                    object.symbols@.len() as int,
                );
            }
        },
        FileToPlace::Library(range) => {
            lemma_library_written(
                range,
                ctx.flags@,
                ctx.definitions@,
                start.offsets,
                ctx.parts,
                range.num_symbols as int,
            );
        },
        FileToPlace::Internal { symbol_id_range, symbols } => {
            lemma_internal_written(
                symbol_id_range,
                symbols@,
                ctx,
                start.offsets,
                symbol_id_range.num_symbols as int,
            );
        },
        _ => {},
    }
}

/// A resolution is written for every symbol: where the symbols of the files follow each other, the
/// resolution of the `k`-th symbol of a file is found `k` places after those of the files before.
pub proof fn lemma_resolution_of_every_symbol<'a, 'data>(
    files: Seq<FileToPlace<'a, 'data>>,
    ctx: &GroupContext<'a, 'data>,
    start: SymbolsView,
    count: int,
    index: int,
    k: int,
)
    requires
        forall|i: int| 0 <= i < files.len() ==> file_wf(#[trigger] files[i], ctx),
        0 <= index < count <= files.len(),
        0 <= k < symbol_count(files[index]),
    ensures
        group_resolutions(files, ctx, start, count) matches Ok((resolutions, _)) ==> {
            &&& resolutions.len() == count
            &&& resolutions[index].len() == symbol_count(files[index])
            &&& all_resolutions(resolutions, count).len() == first_resolution(files, count)
            &&& first_resolution(files, index) + k < first_resolution(files, count)
            &&& all_resolutions(resolutions, count)[first_resolution(files, index) + k]
                == resolutions[index][k]
        },
    decreases count,
{
    if group_resolutions(files, ctx, start, count) is Ok {
        lemma_group_written(files, ctx, start, count);
        let resolutions = (group_resolutions(files, ctx, start, count)->Ok_0).0;
        let before = (group_resolutions(files, ctx, start, count - 1)->Ok_0).0;
        lemma_group_written(files, ctx, start, count - 1);
        lemma_all_resolutions_prefix(before, resolutions, count - 1);
        let earlier = all_resolutions(resolutions, count - 1);
        assert(resolutions[index].len() == symbol_count(files[index]));
        assert(all_resolutions(resolutions, count) == earlier + resolutions[count - 1]);
        if index < count - 1 {
            lemma_resolution_of_every_symbol(files, ctx, start, count - 1, index, k);
            assert(before[index] == resolutions[index]);
            assert(earlier.len() == first_resolution(files, count - 1));
        } else {
            assert(all_resolutions(resolutions, count)[earlier.len() + k] == resolutions[count
                - 1][k]);
        }
    }
}

/// Resolutions of later files do not change those of the files before them.
pub proof fn lemma_all_resolutions_prefix(
    a: Seq<Seq<Option<Resolution>>>,
    b: Seq<Seq<Option<Resolution>>>,
    count: int,
)
    requires
        0 <= count <= a.len(),
        a.len() <= b.len(),
        forall|i: int| 0 <= i < count ==> #[trigger] a[i] == b[i],
    ensures
        all_resolutions(a, count) == all_resolutions(b, count),
    decreases count,
{
    if count > 0 {
        lemma_all_resolutions_prefix(a, b, count - 1);
        assert(a[count - 1] == b[count - 1]);
    }
}

proof fn lemma_group_written<'a, 'data>(
    files: Seq<FileToPlace<'a, 'data>>,
    ctx: &GroupContext<'a, 'data>,
    start: SymbolsView,
    count: int,
)
    requires
        forall|i: int| 0 <= i < files.len() ==> file_wf(#[trigger] files[i], ctx),
        0 <= count <= files.len(),
    ensures
        group_resolutions(files, ctx, start, count) matches Ok((resolutions, _)) ==> {
            &&& resolutions.len() == count
            &&& forall|i: int|
                0 <= i < count ==> (#[trigger] resolutions[i]).len() == symbol_count(files[i])
            &&& all_resolutions(resolutions, count).len() == first_resolution(files, count)
        },
    decreases count,
{
    if count > 0 && group_resolutions(files, ctx, start, count) is Ok {
        lemma_group_written(files, ctx, start, count - 1);
        let (before, state) = group_resolutions(files, ctx, start, count - 1)->Ok_0;
        let resolutions = (group_resolutions(files, ctx, start, count)->Ok_0).0;
        lemma_file_written(files[count - 1], ctx, state);
        lemma_all_resolutions_prefix(before, resolutions, count - 1);
    }
}

} // verus!
