//! The work of finding out what is loaded, and who does it.
use crate::file_id::FileId;
use crate::groups::{FileState, ObjectState, ObjectSymbol, SymbolSection};
use crate::section_loading::{CommonGroupState, SectionGcUnit};
use crate::symbol_id::{SymbolId, SymbolIdRange};
use vstd::prelude::*;

verus! {

/// A request to load part of a file.
#[derive(Clone, Copy, Debug, PartialEq, Eq, Structural)]
pub struct GcLoadRequest {
    pub file_id: FileId,
    pub gc_unit: SectionGcUnit,
}

/// Something to be done while finding out what is loaded.
#[derive(Clone, Copy, Debug, PartialEq, Eq, Structural)]
pub enum WorkItem {
    /// Something needs the value of a symbol for the first time.
    LoadGlobalSymbol(SymbolId),
    /// A symbol of a shared object is referred to directly and has to be copied.
    CopyRelocateSymbol(SymbolId),
    LoadGcUnit(GcLoadRequest),
    /// A symbol has to be exported, if the file that defines it can do that.
    ExportDynamic(SymbolId),
}

impl GcLoadRequest {
    pub fn new(file_id: FileId, gc_unit: SectionGcUnit) -> (request: GcLoadRequest)
        ensures
            request == (GcLoadRequest { file_id, gc_unit }),
    {
        GcLoadRequest { file_id, gc_unit }
    }
}

impl WorkItem {
    /// The file that does the work: the one that defines the symbol, or that the unit is in.
    pub open spec fn spec_file_id(self, file_ids: Seq<FileId>) -> FileId {
        match self {
            WorkItem::LoadGlobalSymbol(id) => file_ids[id.0 as int],
            WorkItem::CopyRelocateSymbol(id) => file_ids[id.0 as int],
            WorkItem::LoadGcUnit(request) => request.file_id,
            WorkItem::ExportDynamic(id) => file_ids[id.0 as int],
        }
    }

    /// Whether the symbol that the work is about exists.
    pub open spec fn wf(self, num_symbols: int) -> bool {
        match self {
            WorkItem::LoadGlobalSymbol(id) => id.0 < num_symbols,
            WorkItem::CopyRelocateSymbol(id) => id.0 < num_symbols,
            WorkItem::LoadGcUnit(_) => true,
            WorkItem::ExportDynamic(id) => id.0 < num_symbols,
        }
    }

    /// The file that does the work. `file_ids` says for each symbol which file it is in.
    pub fn file_id(self, file_ids: &Vec<FileId>) -> (file_id: FileId)
        requires
            self.wf(file_ids@.len() as int),
        ensures
            file_id == self.spec_file_id(file_ids@),
    {
        match self {
            WorkItem::LoadGlobalSymbol(id) => file_ids[id.as_usize()],
            WorkItem::CopyRelocateSymbol(id) => file_ids[id.as_usize()],
            WorkItem::LoadGcUnit(request) => request.file_id,
            WorkItem::ExportDynamic(id) => file_ids[id.as_usize()],
        }
    }
}

/// The work of one group.
#[derive(Debug)]
pub struct LocalWorkQueue {
    /// The group that the queue belongs to.
    pub index: usize,
    pub local_work: Vec<WorkItem>,
}

impl LocalWorkQueue {
    pub fn new(index: usize) -> (queue: LocalWorkQueue)
        ensures
            queue.index == index,
            queue.local_work@ == Seq::<WorkItem>::empty(),
    {
        LocalWorkQueue { index, local_work: Vec::new() }
    }

    /// Takes on work for the files of the group. Work for another group is handed back, to be sent
    /// there.
    pub fn send_work(&mut self, file_id: FileId, work: WorkItem) -> (remote: Option<WorkItem>)
        ensures
            final(self).index == old(self).index,
            file_id.spec_group() == old(self).index ==> remote is None && final(self).local_work@
                == old(self).local_work@.push(work),
            file_id.spec_group() != old(self).index ==> remote == Some(work)
                && final(self).local_work@ == old(self).local_work@,
    {
        if file_id.group() == self.index {
            self.local_work.push(work);
            None
        } else {
            Some(work)
        }
    }

    /// Asks for a symbol to be loaded by the file that defines it.
    pub fn send_symbol_request(&mut self, symbol_id: SymbolId, file_ids: &Vec<FileId>) -> (remote:
        Option<WorkItem>)
        requires
            symbol_id.0 < file_ids@.len(),
        ensures
            final(self).index == old(self).index,
            file_ids@[symbol_id.0 as int].spec_group() == old(self).index ==> remote is None
                && final(self).local_work@ == old(self).local_work@.push(
                WorkItem::LoadGlobalSymbol(symbol_id),
            ),
            file_ids@[symbol_id.0 as int].spec_group() != old(self).index ==> remote == Some(
                WorkItem::LoadGlobalSymbol(symbol_id),
            ) && final(self).local_work@ == old(self).local_work@,
    {
        self.send_work(file_ids[symbol_id.as_usize()], WorkItem::LoadGlobalSymbol(symbol_id))
    }

    /// Asks for part of a file to be loaded.
    pub fn send_gc_unit_request(&mut self, file_id: FileId, gc_unit: SectionGcUnit) -> (remote:
        Option<WorkItem>)
        ensures
            final(self).index == old(self).index,
            file_id.spec_group() == old(self).index ==> remote is None && final(self).local_work@
                == old(self).local_work@.push(
                WorkItem::LoadGcUnit(GcLoadRequest { file_id, gc_unit }),
            ),
            file_id.spec_group() != old(self).index ==> remote == Some(
                WorkItem::LoadGcUnit(GcLoadRequest { file_id, gc_unit }),
            ) && final(self).local_work@ == old(self).local_work@,
    {
        self.send_work(file_id, WorkItem::LoadGcUnit(GcLoadRequest::new(file_id, gc_unit)))
    }

    /// Asks for a symbol of a shared object to be copied.
    pub fn send_copy_relocation_request(
        &mut self,
        symbol_id: SymbolId,
        file_ids: &Vec<FileId>,
    ) -> (remote: Option<WorkItem>)
        requires
            symbol_id.0 < file_ids@.len(),
        ensures
            final(self).index == old(self).index,
            file_ids@[symbol_id.0 as int].spec_group() == old(self).index ==> remote is None
                && final(self).local_work@ == old(self).local_work@.push(
                WorkItem::CopyRelocateSymbol(symbol_id),
            ),
            file_ids@[symbol_id.0 as int].spec_group() != old(self).index ==> remote == Some(
                WorkItem::CopyRelocateSymbol(symbol_id),
            ) && final(self).local_work@ == old(self).local_work@,
    {
        self.send_work(file_ids[symbol_id.as_usize()], WorkItem::CopyRelocateSymbol(symbol_id))
    }

    /// The next thing to do: what came last, or what others have left in the slot of the group if
    /// there is nothing else. The slot is emptied when it is needed. `None` if the group is idle.
    pub fn next_work(&mut self, slot: &mut Vec<WorkItem>) -> (work: Option<WorkItem>)
        ensures
            final(self).index == old(self).index,
            ({
                let own = old(self).local_work@;
                let sent = old(slot)@;
                if own.len() > 0 {
                    &&& work == Some(own.last())
                    &&& final(self).local_work@ == own.drop_last()
                    &&& final(slot)@ == sent
                } else if sent.len() > 0 {
                    &&& work == Some(sent.last())
                    &&& final(self).local_work@ == sent.drop_last()
                    &&& final(slot)@ == Seq::<WorkItem>::empty()
                } else {
                    &&& work is None
                    &&& final(self).local_work@ == own
                    &&& final(slot)@ == sent
                }
            }),
    {
        if self.local_work.len() == 0 {
            let mut taken: Vec<WorkItem> = Vec::new();
            std::mem::swap(slot, &mut taken);
            self.local_work = taken;
        }
        self.local_work.pop()
    }
}

/// What a file does about an item of work.
#[derive(Clone, Copy, Debug, PartialEq, Eq, Structural)]
pub enum WorkAction {
    /// Load what a symbol of the object stands for.
    LoadObjectSymbol(SymbolId),
    /// Note that a symbol of the shared object is used.
    UseDynamicSymbol(SymbolId),
    /// Note that a symbol of the stub library is imported.
    ImportStubSymbol(SymbolId),
    /// Load the sections that the symbol marks the start or the end of.
    LoadMarkedSections(SymbolId),
    CopyRelocate(SymbolId),
    LoadGcUnit(SectionGcUnit),
    Export(SymbolId),
    Nothing,
}

/// Why an item of work cannot be done.
#[derive(Clone, Copy, Debug, PartialEq, Eq, Structural)]
pub enum WorkError {
    /// Only symbols of shared objects are copied.
    CopyFromNonDynamic(SymbolId),
    /// Only parts of objects are loaded.
    UnitOfNonObject(SectionGcUnit),
}

/// What a file does about an item of work.
pub open spec fn action_for(file: FileState, work: WorkItem) -> Result<WorkAction, WorkError> {
    match work {
        WorkItem::LoadGlobalSymbol(id) => Ok(
            match file {
                FileState::Object(_) => WorkAction::LoadObjectSymbol(id),
                FileState::Dynamic(_) => WorkAction::UseDynamicSymbol(id),
                FileState::StubLibrary(_) => WorkAction::ImportStubSymbol(id),
                FileState::SyntheticSymbols(_) => WorkAction::LoadMarkedSections(id),
                _ => WorkAction::Nothing,
            },
        ),
        WorkItem::CopyRelocateSymbol(id) => match file {
            FileState::Dynamic(_) => Ok(WorkAction::CopyRelocate(id)),
            _ => Err(WorkError::CopyFromNonDynamic(id)),
        },
        WorkItem::LoadGcUnit(request) => match file {
            FileState::Object(_) => Ok(WorkAction::LoadGcUnit(request.gc_unit)),
            _ => Err(WorkError::UnitOfNonObject(request.gc_unit)),
        },
        WorkItem::ExportDynamic(id) => match file {
            FileState::Object(_) => Ok(WorkAction::Export(id)),
            _ => Ok(WorkAction::Nothing),
        },
    }
}

impl FileState {
    /// Decides what a file does about an item of work. The epilogue defines no symbols.
    pub fn do_work(&self, work: WorkItem) -> (action: Result<WorkAction, WorkError>)
        requires
            work is LoadGlobalSymbol ==> !(*self is Epilogue),
        ensures
            action == action_for(*self, work),
    {
        match work {
            WorkItem::LoadGlobalSymbol(id) => Ok(self.handle_symbol_request(id)),
            WorkItem::CopyRelocateSymbol(id) => match self {
                FileState::Dynamic(_) => Ok(WorkAction::CopyRelocate(id)),
                _ => Err(WorkError::CopyFromNonDynamic(id)),
            },
            WorkItem::LoadGcUnit(request) => match self {
                FileState::Object(_) => Ok(WorkAction::LoadGcUnit(request.gc_unit)),
                _ => Err(WorkError::UnitOfNonObject(request.gc_unit)),
            },
            WorkItem::ExportDynamic(id) => match self {
                FileState::Object(_) => Ok(WorkAction::Export(id)),
                // Files that are not loaded and shared objects do nothing.
                _ => Ok(WorkAction::Nothing),
            },
        }
    }

    /// Decides what a file does if one of its symbols is needed.
    pub fn handle_symbol_request(&self, symbol_id: SymbolId) -> (action: WorkAction)
        requires
            !(*self is Epilogue),
        ensures
            action_for(*self, WorkItem::LoadGlobalSymbol(symbol_id)) == Ok::<_, WorkError>(action),
    {
        match self {
            FileState::Object(_) => WorkAction::LoadObjectSymbol(symbol_id),
            FileState::Dynamic(_) => WorkAction::UseDynamicSymbol(symbol_id),
            FileState::StubLibrary(_) => WorkAction::ImportStubSymbol(symbol_id),
            FileState::SyntheticSymbols(_) => WorkAction::LoadMarkedSections(symbol_id),
            _ => WorkAction::Nothing,
        }
    }

    /// The IDs of the symbols of the file.
    pub open spec fn spec_symbol_id_range(self) -> SymbolIdRange {
        match self {
            FileState::Prelude(range) => range,
            FileState::Object(object) => object.symbol_id_range,
            FileState::Dynamic(range) => range,
            FileState::StubLibrary(range) => range,
            FileState::NotLoaded(range) => range,
            FileState::SyntheticSymbols(range) => range,
            FileState::LinkerScript(range) => range,
            FileState::Epilogue => SymbolIdRange {
                start_symbol_id: SymbolId(0),
                num_symbols: 0,
            },
        }
    }

    /// The IDs of the symbols of the file. The epilogue has none.
    pub fn symbol_id_range(&self) -> (range: SymbolIdRange)
        ensures
            range == self.spec_symbol_id_range(),
    {
        match self {
            FileState::Prelude(range) => *range,
            FileState::Object(object) => object.symbol_id_range,
            FileState::Dynamic(range) => *range,
            FileState::StubLibrary(range) => *range,
            FileState::NotLoaded(range) => *range,
            FileState::SyntheticSymbols(range) => *range,
            FileState::LinkerScript(range) => *range,
            FileState::Epilogue => SymbolIdRange::empty(),
        }
    }
}

/// Why a symbol of an object cannot be loaded.
#[derive(Clone, Copy, Debug, PartialEq, Eq, Structural)]
pub enum LoadSymbolError {
    /// The file does not hold the definition of the symbol.
    NotTheDefinition,
    Unreadable,
    Overflow,
}

/// Loads what a symbol of an object stands for: asks for its section to be loaded, or allocates it
/// if it is a common symbol. With `check_definition`, a symbol whose definition is another one is
/// refused.
pub fn load_object_symbol(
    object: &ObjectState,
    symbol: ObjectSymbol,
    is_definition: bool,
    check_definition: bool,
    common: &mut CommonGroupState,
    queue: &mut LocalWorkQueue,
) -> (result: Result<(), LoadSymbolError>)
    requires
        old(common).wf(),
        symbol.section matches SymbolSection::InSection(section) ==> section <= u32::MAX,
    ensures
        final(queue).index == old(queue).index,
        if check_definition && !is_definition {
            result == Err::<(), _>(LoadSymbolError::NotTheDefinition) && *final(common) == *old(
                common,
            ) && final(queue).local_work@ == old(queue).local_work@
        } else {
            match symbol.section {
                SymbolSection::Unreadable => result == Err::<(), _>(LoadSymbolError::Unreadable)
                    && *final(common) == *old(common) && final(queue).local_work@ == old(
                    queue,
                ).local_work@,
                SymbolSection::InSection(section) => result is Ok && *final(common) == *old(common)
                    && final(queue).local_work@ == old(queue).local_work@.push(
                    WorkItem::LoadGcUnit(
                        GcLoadRequest {
                            file_id: object.file_id,
                            gc_unit: SectionGcUnit(section as u32),
                        },
                    ),
                ),
                SymbolSection::NoSection => {
                    &&& final(queue).local_work@ == old(queue).local_work@
                    &&& match symbol.common {
                        Some(allocated) => if old(common).mem_sizes.value(allocated.part_id.0)
                            + allocated.size > u64::MAX {
                            result == Err::<(), _>(LoadSymbolError::Overflow) && *final(common)
                                == *old(common)
                        } else {
                            &&& result is Ok
                            &&& final(common).wf()
                            &&& final(common).mem_sizes.dense() == old(common).mem_sizes.dense()
                            &&& final(common).mem_sizes@ == old(common).mem_sizes@.insert(
                                allocated.part_id.0,
                                (old(common).mem_sizes.value(allocated.part_id.0)
                                    + allocated.size) as u64,
                            )
                            &&& final(common).section_attributes == old(common).section_attributes
                        },
                        None => result is Ok && *final(common) == *old(common),
                    }
                },
            }
        },
{
    if check_definition && !is_definition {
        return Err(LoadSymbolError::NotTheDefinition);
    }
    match symbol.section {
        SymbolSection::Unreadable => Err(LoadSymbolError::Unreadable),
        SymbolSection::InSection(section) => {
            queue.local_work.push(
                WorkItem::LoadGcUnit(
                    GcLoadRequest::new(object.file_id, SectionGcUnit::new(section)),
                ),
            );
            Ok(())
        },
        SymbolSection::NoSection => {
            if let Some(allocated) = symbol.common {
                let size: u64 = common.mem_sizes.get(allocated.part_id);
                if size.checked_add(allocated.size).is_none() {
                    return Err(LoadSymbolError::Overflow);
                }
                common.allocate(allocated.part_id, allocated.size);
            }
            Ok(())
        },
    }
}

/// Work stays in the group that its file belongs to: what a queue keeps is for its own group.
pub proof fn lemma_work_stays_local(
    queue_index: int,
    before: Seq<WorkItem>,
    after: Seq<WorkItem>,
    work: WorkItem,
    file_ids: Seq<FileId>,
)
    requires
        forall|i: int|
            0 <= i < before.len() ==> (#[trigger] before[i]).spec_file_id(file_ids).spec_group()
                == queue_index,
        after == before || (after == before.push(work) && work.spec_file_id(file_ids).spec_group()
            == queue_index),
    ensures
        forall|i: int|
            0 <= i < after.len() ==> (#[trigger] after[i]).spec_file_id(file_ids).spec_group()
                == queue_index,
{
}

} // verus!
