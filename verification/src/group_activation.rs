//! How groups of files become part of a link, and who does their work.
use crate::file_id::FileId;
use crate::groups::{FileState, ObjectState};
use crate::output_section_id::OutputSectionId;
use crate::output_section_map::OutputSectionMap;
use crate::symbol_id::SymbolIdRange;
use crate::work_queue::{GcLoadRequest, LocalWorkQueue, WorkItem};
use vstd::prelude::*;

verus! {

/// A file whose symbols have been resolved.
#[derive(Debug)]
pub enum ResolvedFile {
    NotLoaded(SymbolIdRange),
    Prelude(SymbolIdRange),
    Object(ObjectState),
    Dynamic(SymbolIdRange),
    StubLibrary(SymbolIdRange),
    LinkerScript(SymbolIdRange),
    SyntheticSymbols(SymbolIdRange),
    /// A file of intermediate code. What a plugin has compiled it to is loaded in its place.
    LtoInput(SymbolIdRange),
}

impl ResolvedFile {
    /// The state of the file when layout starts.
    pub open spec fn layout_state(self) -> FileState {
        match self {
            ResolvedFile::NotLoaded(range) => FileState::NotLoaded(range),
            ResolvedFile::Prelude(range) => FileState::Prelude(range),
            ResolvedFile::Object(object) => FileState::Object(object),
            ResolvedFile::Dynamic(range) => FileState::Dynamic(range),
            ResolvedFile::StubLibrary(range) => FileState::StubLibrary(range),
            ResolvedFile::LinkerScript(range) => FileState::LinkerScript(range),
            ResolvedFile::SyntheticSymbols(range) => FileState::SyntheticSymbols(range),
            ResolvedFile::LtoInput(range) => FileState::NotLoaded(range),
        }
    }

    /// The state of the file when layout starts.
    pub fn create_layout_state(self) -> (state: FileState)
        ensures
            state == self.layout_state(),
    {
        match self {
            ResolvedFile::NotLoaded(range) => FileState::NotLoaded(range),
            ResolvedFile::Prelude(range) => FileState::Prelude(range),
            ResolvedFile::Object(object) => FileState::Object(object),
            ResolvedFile::Dynamic(range) => FileState::Dynamic(range),
            ResolvedFile::StubLibrary(range) => FileState::StubLibrary(range),
            ResolvedFile::LinkerScript(range) => FileState::LinkerScript(range),
            ResolvedFile::SyntheticSymbols(range) => FileState::SyntheticSymbols(range),
            ResolvedFile::LtoInput(range) => FileState::NotLoaded(range),
        }
    }
}

/// What is done for a file when its group becomes part of the link.
#[derive(Clone, Copy, Debug, PartialEq, Eq, Structural)]
pub enum Activation {
    /// Load what must be loaded of the object, and export its symbols if they are exported.
    Object,
    /// Ask for the entry symbol and for what the arguments name.
    Prelude,
    Dynamic,
    /// Ask for what the expressions of the script refer to.
    LinkerScript,
    Nothing,
}

/// What is done to find out how much a file adds to the output.
#[derive(Clone, Copy, Debug, PartialEq, Eq, Structural)]
pub struct SizeSteps {
    /// The file adds something by itself.
    pub own: bool,
    /// The symbols of the file may need entries.
    pub symbols: bool,
}

impl FileState {
    /// What is done for the file when its group becomes part of the link.
    pub fn activation(&self) -> (activation: Activation)
        ensures
            activation == (match *self {
                FileState::Object(_) => Activation::Object,
                FileState::Prelude(_) => Activation::Prelude,
                FileState::Dynamic(_) => Activation::Dynamic,
                FileState::LinkerScript(_) => Activation::LinkerScript,
                _ => Activation::Nothing,
            }),
    {
        match self {
            FileState::Object(_) => Activation::Object,
            FileState::Prelude(_) => Activation::Prelude,
            FileState::Dynamic(_) => Activation::Dynamic,
            FileState::LinkerScript(_) => Activation::LinkerScript,
            _ => Activation::Nothing,
        }
    }

    pub open spec fn spec_size_steps(self) -> SizeSteps {
        match self {
            FileState::StubLibrary(_) => SizeSteps { own: false, symbols: true },
            FileState::Epilogue => SizeSteps { own: true, symbols: false },
            FileState::NotLoaded(_) => SizeSteps { own: false, symbols: false },
            _ => SizeSteps { own: true, symbols: true },
        }
    }

    /// What is done to find out how much the file adds to the output.
    pub fn size_steps(&self) -> (steps: SizeSteps)
        ensures
            steps == self.spec_size_steps(),
    {
        match self {
            FileState::StubLibrary(_) => SizeSteps { own: false, symbols: true },
            FileState::Epilogue => SizeSteps { own: true, symbols: false },
            FileState::NotLoaded(_) => SizeSteps { own: false, symbols: false },
            _ => SizeSteps { own: true, symbols: true },
        }
    }
}

/// The states of the files of a group when layout starts.
pub open spec fn layout_states(files: Seq<ResolvedFile>) -> Seq<FileState> {
    Seq::new(files.len(), |i: int| files[i].layout_state())
}

/// The states of the files of a group when layout starts, and the queue of the group, which is
/// empty.
pub fn activate_group(files: Vec<ResolvedFile>, group_index: usize) -> (group: (
    Vec<FileState>,
    LocalWorkQueue,
))
    ensures
        group.0@ == layout_states(files@),
        group.1.index == group_index,
        group.1.local_work@ == Seq::<WorkItem>::empty(),
{
    let ghost all = files@;
    let mut remaining: Vec<ResolvedFile> = files;
    let mut reversed: Vec<FileState> = Vec::new();
    while remaining.len() > 0
        invariant
            remaining@.len() + reversed@.len() == all.len(),
            remaining@ == all.take(remaining@.len() as int),
            forall|i: int|
                0 <= i < reversed@.len() ==> #[trigger] reversed@[i] == all[all.len() - 1
                    - i].layout_state(),
        decreases remaining@.len(),
    {
        let ghost before = remaining@;
        match remaining.pop() {
            Some(file) => {
                assert(file == all[before.len() - 1]);
                assert(remaining@ =~= all.take(remaining@.len() as int));
                reversed.push(file.create_layout_state());
            },
            None => {},
        }
    }
    let ghost turned = reversed@;
    let mut states: Vec<FileState> = Vec::new();
    while reversed.len() > 0
        invariant
            turned.len() == all.len(),
            forall|i: int|
                0 <= i < turned.len() ==> #[trigger] turned[i] == all[all.len() - 1
                    - i].layout_state(),
            reversed@.len() + states@.len() == all.len(),
            reversed@ == turned.take(reversed@.len() as int),
            forall|i: int|
                0 <= i < states@.len() ==> #[trigger] states@[i] == all[i].layout_state(),
        decreases reversed@.len(),
    {
        let ghost before = reversed@;
        match reversed.pop() {
            Some(state) => {
                assert(state == turned[before.len() - 1]);
                assert(reversed@ =~= turned.take(reversed@.len() as int));
                states.push(state);
            },
            None => {},
        }
    }
    assert(states@ =~= layout_states(all));
    (states, LocalWorkQueue::new(group_index))
}

/// Where others leave work for a group.
#[derive(Debug)]
pub struct WorkerSlot {
    pub work: Vec<WorkItem>,
    /// The group has nothing to do, and waits to be woken.
    pub idle: bool,
}

/// The slots of all groups.
#[derive(Debug)]
pub struct WorkerSlots {
    pub slots: Vec<WorkerSlot>,
}

impl WorkerSlots {
    /// Groups that wait have no work left.
    pub open spec fn wf(&self) -> bool {
        forall|g: int|
            0 <= g < self.slots@.len() ==> ((#[trigger] self.slots@[g]).idle
                ==> self.slots@[g].work@.len() == 0)
    }

    /// The slots when groups become part of the link: all are busy and nothing has been sent.
    pub fn new(num_groups: usize) -> (slots: WorkerSlots)
        ensures
            slots.wf(),
            slots.slots@.len() == num_groups,
            forall|g: int|
                0 <= g < num_groups ==> !(#[trigger] slots.slots@[g]).idle
                    && slots.slots@[g].work@ == Seq::<WorkItem>::empty(),
    {
        let mut slots: Vec<WorkerSlot> = Vec::new();
        while slots.len() < num_groups
            invariant
                slots@.len() <= num_groups,
                forall|g: int|
                    0 <= g < slots@.len() ==> !(#[trigger] slots@[g]).idle && slots@[g].work@
                        == Seq::<WorkItem>::empty(),
            decreases num_groups - slots@.len(),
        {
            slots.push(WorkerSlot { work: Vec::new(), idle: false });
        }
        WorkerSlots { slots }
    }

    /// Leaves work for the group of a file. Returns whether the group was idle, in which case it
    /// has to be woken.
    pub fn send_work(&mut self, file_id: FileId, work: WorkItem) -> (wake: bool)
        requires
            old(self).wf(),
            file_id.spec_group() < old(self).slots@.len(),
        ensures
            final(self).wf(),
            final(self).slots@.len() == old(self).slots@.len(),
            wake == old(self).slots@[file_id.spec_group() as int].idle,
            !final(self).slots@[file_id.spec_group() as int].idle,
            final(self).slots@[file_id.spec_group() as int].work@ == old(
                self,
            ).slots@[file_id.spec_group() as int].work@.push(work),
            forall|g: int|
                0 <= g < old(self).slots@.len() && g != file_id.spec_group()
                    ==> #[trigger] final(self).slots@[g] == old(self).slots@[g],
    {
        let group: usize = file_id.group();
        let wake: bool = self.slots[group].idle;
        let mut slot: WorkerSlot = WorkerSlot { work: Vec::new(), idle: false };
        let ghost before = self.slots@;
        std::mem::swap(&mut self.slots[group], &mut slot);
        assert(self.slots@[group as int].work@.len() == 0);
        slot.work.push(work);
        slot.idle = false;
        std::mem::swap(&mut self.slots[group], &mut slot);
        assert(self.slots@ =~= before.update(group as int, self.slots@[group as int]));
        wake
    }

    /// Takes over the work that others have left for a group that has done all of its own. If there
    /// is none, the group becomes idle.
    pub fn take_work(&mut self, queue: &mut LocalWorkQueue) -> (idle: bool)
        requires
            old(self).wf(),
            old(queue).index < old(self).slots@.len(),
            old(queue).local_work@.len() == 0,
        ensures
            final(self).wf(),
            final(self).slots@.len() == old(self).slots@.len(),
            final(queue).index == old(queue).index,
            final(queue).local_work@ == old(self).slots@[old(queue).index as int].work@,
            idle == (old(self).slots@[old(queue).index as int].work@.len() == 0),
            final(self).slots@[old(queue).index as int].work@.len() == 0,
            final(self).slots@[old(queue).index as int].idle == (idle || old(
                self,
            ).slots@[old(queue).index as int].idle),
            forall|g: int|
                0 <= g < old(self).slots@.len() && g != old(queue).index
                    ==> #[trigger] final(self).slots@[g] == old(self).slots@[g],
    {
        let group: usize = queue.index;
        let mut slot: WorkerSlot = WorkerSlot { work: Vec::new(), idle: false };
        let ghost before = self.slots@;
        std::mem::swap(&mut self.slots[group], &mut slot);
        assert(slot == before[group as int]);
        let idle: bool = slot.work.len() == 0;
        if idle {
            slot.idle = true;
        }
        std::mem::swap(&mut slot.work, &mut queue.local_work);
        std::mem::swap(&mut self.slots[group], &mut slot);
        assert(self.slots@ =~= before.update(group as int, self.slots@[group as int]));
        assert(queue.local_work@ =~= before[group as int].work@);
        idle
    }

    /// The groups that have done all of their work. Those that have failed are not among them.
    pub fn finished_groups(&self) -> (groups: Vec<usize>)
        ensures
            forall|g: int|
                0 <= g < self.slots@.len() ==> ((#[trigger] self.slots@[g]).idle
                    <==> groups@.contains(g as usize)),
            forall|i: int| 0 <= i < groups@.len() ==> #[trigger] groups@[i] < self.slots@.len(),
            forall|i: int, j: int| 0 <= i < j < groups@.len() ==> groups@[i] < groups@[j],
    {
        let mut groups: Vec<usize> = Vec::new();
        let mut g: usize = 0;
        while g < self.slots.len()
            invariant
                g <= self.slots@.len(),
                forall|k: int|
                    0 <= k < g ==> ((#[trigger] self.slots@[k]).idle <==> groups@.contains(
                        k as usize,
                    )),
                forall|i: int| 0 <= i < groups@.len() ==> #[trigger] groups@[i] < g,
                forall|i: int, j: int| 0 <= i < j < groups@.len() ==> groups@[i] < groups@[j],
            decreases self.slots@.len() - g,
        {
            let ghost before = groups@;
            if self.slots[g].idle {
                groups.push(g);
            }
            proof {
                assert forall|k: int| 0 <= k < g + 1 implies ((#[trigger] self.slots@[k]).idle
                    <==> groups@.contains(k as usize)) by {
                    if k < g && before.contains(k as usize) {
                        let i = choose|i: int| 0 <= i < before.len() && before[i] == k as usize;
                        assert(groups@[i] == k as usize);
                    }
                    if groups@.contains(k as usize) {
                        let i = choose|i: int| 0 <= i < groups@.len() && groups@[i] == k as usize;
                        if i < before.len() {
                            assert(before[i] == k as usize);
                        }
                    }
                    if k == g && self.slots@[k].idle {
                        assert(groups@[before.len() as int] == k as usize);
                    }
                }
            }
            g = g + 1;
        }
        groups
    }
}

/// No work is lost: once all groups are idle, nothing is left to be done.
pub proof fn lemma_idle_groups_have_no_work(slots: &WorkerSlots, group: int)
    requires
        slots.wf(),
        0 <= group < slots.slots@.len(),
        forall|g: int| 0 <= g < slots.slots@.len() ==> (#[trigger] slots.slots@[g]).idle,
    ensures
        slots.slots@[group].work@ == Seq::<WorkItem>::empty(),
{
    assert(slots.slots@[group].work@ =~= Seq::<WorkItem>::empty());
}

/// The sections that are loaded when something refers to the start or the end of an output section.
#[derive(Debug)]
pub struct StartStopSections {
    pub candidates: OutputSectionMap<Vec<GcLoadRequest>>,
}

impl StartStopSections {
    /// What to load because something refers to the start or the end of an output section. It is
    /// handed out once.
    pub fn load_symbol(&mut self, section_id: OutputSectionId) -> (requests: Vec<GcLoadRequest>)
        requires
            section_id.0 < old(self).candidates@.len(),
        ensures
            requests@ == old(self).candidates@[section_id.0 as int]@,
            final(self).candidates@.len() == old(self).candidates@.len(),
            final(self).candidates@[section_id.0 as int]@ == Seq::<GcLoadRequest>::empty(),
            forall|i: int|
                0 <= i < old(self).candidates@.len() && i != section_id.0
                    ==> #[trigger] final(self).candidates@[i] == old(self).candidates@[i],
    {
        let mut requests: Vec<GcLoadRequest> = Vec::new();
        std::mem::swap(self.candidates.get_mut(section_id), &mut requests);
        requests
    }
}

/// Notes that an output section is kept though nothing is in it.
pub fn keep_section(must_keep: &mut OutputSectionMap<bool>, section_id: OutputSectionId)
    requires
        section_id.0 < old(must_keep)@.len(),
    ensures
        final(must_keep)@ == old(must_keep)@.update(section_id.0 as int, true),
{
    if !*must_keep.get(section_id) {
        *must_keep.get_mut(section_id) = true;
    }
    assert(must_keep@ =~= old(must_keep)@.update(section_id.0 as int, true));
}

} // verus!
