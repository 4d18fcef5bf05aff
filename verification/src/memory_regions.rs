//! The memory regions that a linker script declares.
use crate::hash_maps::NameMap;
use vstd::prelude::*;

verus! {

/// The attributes that a linker script gives a memory region.
#[derive(Clone, Copy, Debug, PartialEq, Eq, Structural)]
pub struct MemoryFlags {
    pub write: bool,
    pub execute: bool,
}

/// A memory region and how much of it is in use.
#[derive(Clone, Copy, Debug, PartialEq, Eq, Structural)]
pub struct MemoryRegion {
    pub origin: u64,
    pub length: u64,
    pub used: u64,
    pub used_lma: u64,
    pub flags: Option<MemoryFlags>,
}

/// Whether a section of the given kind may go into a region with the given flags.
pub open spec fn flags_admit(flags: Option<MemoryFlags>, writable: bool, executable: bool) -> bool {
    match flags {
        None => true,
        Some(flags) => (writable ==> flags.write) && (executable ==> flags.execute),
    }
}

/// Whether a section of the given kind may go into a region with the given flags.
pub fn memory_flags_match(flags: Option<MemoryFlags>, writable: bool, executable: bool) -> (matches:
    bool)
    ensures
        matches == flags_admit(flags, writable, executable),
{
    match flags {
        None => true,
        Some(flags) => {
            if writable && !flags.write {
                return false;
            }
            if executable && !flags.execute {
                return false;
            }
            true
        },
    }
}

/// Memory regions by name.
pub struct MemoryRegions {
    positions: NameMap,
    regions: Vec<MemoryRegion>,
}

impl View for MemoryRegions {
    type V = Map<Seq<u8>, MemoryRegion>;

    closed spec fn view(&self) -> Map<Seq<u8>, MemoryRegion> {
        regions_by_name(self.positions@, self.regions@)
    }
}

spec fn regions_by_name(positions: Map<Seq<u8>, u64>, regions: Seq<MemoryRegion>) -> Map<
    Seq<u8>,
    MemoryRegion,
> {
    Map::new(
        |name: Seq<u8>| positions.contains_key(name),
        |name: Seq<u8>| regions[positions[name] as int],
    )
}

impl MemoryRegions {
    pub closed spec fn wf(&self) -> bool {
        &&& forall|name: Seq<u8>| #[trigger]
            self.positions@.contains_key(name) ==> self.positions@[name] < self.regions@.len()
        &&& forall|a: Seq<u8>, b: Seq<u8>|
            #![trigger self.positions@.contains_key(a), self.positions@.contains_key(b)]
            self.positions@.contains_key(a) && self.positions@.contains_key(b)
                && self.positions@[a] == self.positions@[b] ==> a == b
    }

    /// No regions.
    pub fn new() -> (regions: MemoryRegions)
        ensures
            regions.wf(),
            regions@ == Map::<Seq<u8>, MemoryRegion>::empty(),
    {
        let regions = MemoryRegions { positions: NameMap::new(), regions: Vec::new() };
        assert(regions@ =~= Map::<Seq<u8>, MemoryRegion>::empty());
        regions
    }

    /// The region with the given name.
    pub fn get(&self, name: &[u8]) -> (region: Option<MemoryRegion>)
        requires
            self.wf(),
        ensures
            region == (if self@.contains_key(name@) {
                Some(self@[name@])
            } else {
                None::<MemoryRegion>
            }),
    {
        match self.positions.get(name) {
            Some(position) => {
                assert(position < self.regions.len());
                Some(self.regions[position as usize])
            },
            None => None,
        }
    }

    /// Declares a region, or replaces one.
    pub fn set(&mut self, name: Vec<u8>, region: MemoryRegion)
        requires
            old(self).wf(),
        ensures
            final(self).wf(),
            final(self)@ == old(self)@.insert(name@, region),
    {
        match self.positions.get(name.as_slice()) {
            Some(position) => {
                self.regions.set(position as usize, region);
                proof {
                    assert forall|other: Seq<u8>| #[trigger]
                        self.positions@.contains_key(other) && other != name@ implies
                        self.positions@[other] != position by {
                        assert(self.positions@.contains_key(name@));
                    }
                    assert(self@ =~= old(self)@.insert(name@, region));
                }
            },
            None => {
                let position: u64 = self.regions.len() as u64;
                let ghost key = name@;
                self.regions.push(region);
                self.positions.insert(name, position);
                proof {
                    assert(self@ =~= old(self)@.insert(key, region));
                }
            },
        }
    }
}

/// The position of the first of the named regions, from a position on, that a section of the given
/// kind may go into.
pub open spec fn first_admitting(
    regions: Map<Seq<u8>, MemoryRegion>,
    order: Seq<&[u8]>,
    writable: bool,
    executable: bool,
    from: int,
) -> Option<int>
    decreases order.len() - from,
{
    if from < 0 || from >= order.len() {
        None
    } else if regions.contains_key(order[from]@) && flags_admit(
        regions[order[from]@].flags,
        writable,
        executable,
    ) {
        Some(from)
    } else {
        first_admitting(regions, order, writable, executable, from + 1)
    }
}

/// The name of the region that a section without an explicit one goes into: the first, in the
/// order of declaration, that it may go into. Only sections that are allocated have one.
pub open spec fn compatible_region<'data>(
    regions: Map<Seq<u8>, MemoryRegion>,
    order: Seq<&'data [u8]>,
    alloc: bool,
    writable: bool,
    executable: bool,
) -> Option<&'data [u8]> {
    match first_admitting(regions, order, writable, executable, 0) {
        Some(position) if alloc => Some(order[position]),
        _ => None,
    }
}

/// The name of the region that a section without an explicit one goes into.
pub fn pick_compatible_memory_region<'data>(
    memory_regions: &MemoryRegions,
    memory_region_order: &Vec<&'data [u8]>,
    alloc: bool,
    writable: bool,
    executable: bool,
) -> (name: Option<&'data [u8]>)
    requires
        memory_regions.wf(),
    ensures
        name == compatible_region(
            memory_regions@,
            memory_region_order@,
            alloc,
            writable,
            executable,
        ),
        name matches Some(name) ==> memory_regions@.contains_key(name@),
{
    if !alloc || memory_region_order.len() == 0 {
        return None;
    }
    let mut i: usize = 0;
    while i < memory_region_order.len()
        invariant
            i <= memory_region_order@.len(),
            alloc,
            memory_regions.wf(),
            first_admitting(memory_regions@, memory_region_order@, writable, executable, 0)
                == first_admitting(
                memory_regions@,
                memory_region_order@,
                writable,
                executable,
                i as int,
            ),
        decreases memory_region_order@.len() - i,
    {
        let name: &'data [u8] = memory_region_order[i];
        match memory_regions.get(name) {
            Some(region) => {
                if memory_flags_match(region.flags, writable, executable) {
                    return Some(name);
                }
            },
            None => {},
        }
        i = i + 1;
    }
    None
}

} // verus!
