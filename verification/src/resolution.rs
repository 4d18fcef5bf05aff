//! The addresses of symbols and sections in the output.
use crate::input_sections;
use crate::output_section_id::PartId;
use crate::output_section_part_map::OutputSectionPartMap;
use crate::value_flags::ValueFlags;
use vstd::prelude::*;

verus! {

/// The size of an entry of the global offset table.
pub const GOT_ENTRY_SIZE: u64 = 8;

/// The size of a stub that jumps by way of the global offset table.
pub const PLT_ENTRY_SIZE: u64 = 12;

/// The address of a symbol.
#[derive(Clone, Copy, Debug, PartialEq, Eq, Structural)]
pub struct Resolution {
    /// An address or an absolute value.
    pub raw_value: u64,
    /// Never 0.
    pub dynamic_symbol_index: Option<u32>,
    pub flags: ValueFlags,
    /// Never 0.
    pub got_address: Option<u64>,
    /// Never 0.
    pub plt_address: Option<u64>,
}

/// Why a symbol has no address.
#[derive(Clone, Copy, Debug, PartialEq, Eq, Structural)]
pub enum ResolutionError {
    /// The object file is malformed.
    Unreadable,
    /// The symbol is in a section that was not loaded.
    SectionNotLoaded(usize),
    /// The output has no dynamic symbols.
    NoDynamicSymbols,
    /// The dynamic symbol index would be 0.
    DynamicSymbolIndexZero,
    /// The global offset table would be at address 0.
    GotAtZero,
    /// The stubs would be at address 0.
    PltAtZero,
    Overflow,
    /// The symbol has no address when linking.
    NotAnAddress,
    MissingDynamicSymbolIndex,
}

/// The address of a section of an input file.
#[derive(Clone, Copy, Debug, PartialEq, Eq, Structural)]
pub struct SectionResolution {
    pub address: u64,
}

impl SectionResolution {
    /// The address, if there is one.
    pub open spec fn spec_address(self) -> Option<u64> {
        if self.address == u64::MAX {
            None
        } else {
            Some(self.address)
        }
    }

    /// A section that was not loaded, or that has no address of its own, such as one of merged
    /// strings.
    pub fn none() -> (resolution: SectionResolution)
        ensures
            resolution.spec_address() is None,
            resolution.address == u64::MAX,
    {
        SectionResolution { address: u64::MAX }
    }

    pub fn address(self) -> (address: Option<u64>)
        ensures
            address == self.spec_address(),
    {
        if self.address == u64::MAX {
            None
        } else {
            Some(self.address)
        }
    }

    /// Makes it look like the address of a symbol.
    pub fn full_resolution(self) -> (resolution: Option<Resolution>)
        ensures
            resolution == (match self.spec_address() {
                Some(address) => Some(
                    Resolution {
                        raw_value: address,
                        dynamic_symbol_index: None,
                        flags: ValueFlags::none(),
                        got_address: None,
                        plt_address: None,
                    },
                ),
                None => None::<Resolution>,
            }),
    {
        match self.address() {
            Some(address) => Some(
                Resolution {
                    raw_value: address,
                    dynamic_symbol_index: None,
                    flags: ValueFlags::empty(),
                    got_address: None,
                    plt_address: None,
                },
            ),
            None => None,
        }
    }
}

impl Resolution {
    pub fn flags(self) -> (flags: ValueFlags)
        ensures
            flags == self.flags,
    {
        self.flags
    }

    pub fn value(self) -> (value: u64)
        ensures
            value == self.raw_value,
    {
        self.raw_value
    }

    /// The address, which must be known when linking.
    pub fn address(&self) -> (address: Result<u64, ResolutionError>)
        ensures
            address == (if self.flags.dynamic || self.flags.absolute {
                Err::<u64, _>(ResolutionError::NotAnAddress)
            } else {
                Ok(self.raw_value)
            }),
    {
        if !self.flags.has_link_time_address() {
            Err(ResolutionError::NotAnAddress)
        } else {
            Ok(self.raw_value)
        }
    }

    pub fn value_for_symbol_table(&self) -> (value: u64)
        ensures
            value == self.raw_value,
    {
        self.raw_value
    }

    pub fn is_absolute(&self) -> (absolute: bool)
        ensures
            absolute == self.flags.absolute,
    {
        self.flags.absolute
    }

    pub fn dynamic_symbol_index(&self) -> (index: Result<u32, ResolutionError>)
        ensures
            index == (match self.dynamic_symbol_index {
                Some(index) => Ok::<u32, ResolutionError>(index),
                None => Err(ResolutionError::MissingDynamicSymbolIndex),
            }),
    {
        match self.dynamic_symbol_index {
            Some(index) => Ok(index),
            None => Err(ResolutionError::MissingDynamicSymbolIndex),
        }
    }
}

/// The parts that entries for symbols are allocated in.
#[derive(Clone, Copy, Debug, PartialEq, Eq, Structural)]
pub struct EntryParts {
    pub got: PartId,
    pub plt: PartId,
}

/// Takes an entry off a part: returns its address and the offsets after it.
pub open spec fn entry_taken(
    offsets: Map<u32, u64>,
    part: PartId,
    size: u64,
    at_zero: ResolutionError,
) -> Result<(u64, Map<u32, u64>), ResolutionError> {
    let address = input_sections::offset_of(offsets, part);
    if address == 0 {
        Err(at_zero)
    } else if address + size > u64::MAX {
        Err(ResolutionError::Overflow)
    } else {
        Ok((address, offsets.insert(part.0, (address + size) as u64)))
    }
}

/// The resolution of a symbol, and the offsets after its entries have been taken. A symbol that
/// needs a stub stands for the stub, one that needs only an entry of the global offset table stands
/// for the entry.
pub open spec fn resolution_created(
    flags: ValueFlags,
    raw_value: u64,
    dynamic_symbol_index: Option<u32>,
    offsets: Map<u32, u64>,
    parts: EntryParts,
) -> Result<(Resolution, Map<u32, u64>), ResolutionError> {
    let plain = Resolution {
        raw_value,
        dynamic_symbol_index,
        flags,
        got_address: None,
        plt_address: None,
    };
    if flags.plt {
        match entry_taken(offsets, parts.plt, PLT_ENTRY_SIZE, ResolutionError::PltAtZero) {
            Err(error) => Err(error),
            Ok((plt, after_plt)) => match entry_taken(
                after_plt,
                parts.got,
                GOT_ENTRY_SIZE,
                ResolutionError::GotAtZero,
            ) {
                Err(error) => Err(error),
                Ok((got, after)) => Ok(
                    (
                        Resolution {
                            raw_value: plt,
                            plt_address: Some(plt),
                            got_address: Some(got),
                            ..plain
                        },
                        after,
                    ),
                ),
            },
        }
    } else if flags.got {
        match entry_taken(offsets, parts.got, GOT_ENTRY_SIZE, ResolutionError::GotAtZero) {
            Err(error) => Err(error),
            Ok((got, after)) => Ok(
                (Resolution { raw_value: got, got_address: Some(got), ..plain }, after),
            ),
        }
    } else {
        Ok((plain, offsets))
    }
}

fn take_entry(
    offsets: &mut OutputSectionPartMap<u64>,
    part: PartId,
    size: u64,
    at_zero: ResolutionError,
) -> (address: Result<u64, ResolutionError>)
    requires
        old(offsets).wf(),
    ensures
        final(offsets).wf(),
        final(offsets).dense() == old(offsets).dense(),
        match (address, entry_taken(old(offsets)@, part, size, at_zero)) {
            (Ok(address), Ok((expected, after))) => address == expected && final(offsets)@ == after,
            (Err(error), Err(expected)) => error == expected,
            _ => false,
        },
{
    let address: u64 = offsets.get(part);
    if address == 0 {
        return Err(at_zero);
    }
    if address.checked_add(size).is_none() {
        return Err(ResolutionError::Overflow);
    }
    offsets.increment(part, size);
    Ok(address)
}

/// Allocates an entry of the global offset table.
pub fn allocate_got(
    memory_offsets: &mut OutputSectionPartMap<u64>,
    parts: EntryParts,
) -> (address: Result<u64, ResolutionError>)
    requires
        old(memory_offsets).wf(),
    ensures
        final(memory_offsets).wf(),
        final(memory_offsets).dense() == old(memory_offsets).dense(),
        match (
            address,
            entry_taken(
                old(memory_offsets)@,
                parts.got,
                GOT_ENTRY_SIZE,
                ResolutionError::GotAtZero,
            ),
        ) {
            (Ok(address), Ok((expected, after))) => address == expected && final(memory_offsets)@
                == after,
            (Err(error), Err(expected)) => error == expected,
            _ => false,
        },
{
    take_entry(memory_offsets, parts.got, GOT_ENTRY_SIZE, ResolutionError::GotAtZero)
}

/// Allocates a stub.
pub fn allocate_plt(
    memory_offsets: &mut OutputSectionPartMap<u64>,
    parts: EntryParts,
) -> (address: Result<u64, ResolutionError>)
    requires
        old(memory_offsets).wf(),
    ensures
        final(memory_offsets).wf(),
        final(memory_offsets).dense() == old(memory_offsets).dense(),
        match (
            address,
            entry_taken(
                old(memory_offsets)@,
                parts.plt,
                PLT_ENTRY_SIZE,
                ResolutionError::PltAtZero,
            ),
        ) {
            (Ok(address), Ok((expected, after))) => address == expected && final(memory_offsets)@
                == after,
            (Err(error), Err(expected)) => error == expected,
            _ => false,
        },
{
    take_entry(memory_offsets, parts.plt, PLT_ENTRY_SIZE, ResolutionError::PltAtZero)
}

/// Creates the resolution of a symbol and allocates the entries that it needs.
pub fn create_resolution(
    flags: ValueFlags,
    raw_value: u64,
    dynamic_symbol_index: Option<u32>,
    memory_offsets: &mut OutputSectionPartMap<u64>,
    parts: EntryParts,
) -> (resolution: Result<Resolution, ResolutionError>)
    requires
        old(memory_offsets).wf(),
    ensures
        final(memory_offsets).wf(),
        final(memory_offsets).dense() == old(memory_offsets).dense(),
        match (
            resolution,
            resolution_created(
                flags,
                raw_value,
                dynamic_symbol_index,
                old(memory_offsets)@,
                parts,
            ),
        ) {
            (Ok(resolution), Ok((expected, after))) => resolution == expected && final(memory_offsets)@ == after,
            (Err(error), Err(expected)) => error == expected,
            _ => false,
        },
{
    let mut resolution = Resolution {
        raw_value,
        dynamic_symbol_index,
        flags,
        got_address: None,
        plt_address: None,
    };
    if flags.plt {
        let plt_address: u64 = match allocate_plt(memory_offsets, parts) {
            Ok(address) => address,
            Err(error) => {
                return Err(error);
            },
        };
        let got_address: u64 = match allocate_got(memory_offsets, parts) {
            Ok(address) => address,
            Err(error) => {
                return Err(error);
            },
        };
        resolution.raw_value = plt_address;
        resolution.plt_address = Some(plt_address);
        resolution.got_address = Some(got_address);
    } else if flags.got {
        let got_address: u64 = match allocate_got(memory_offsets, parts) {
            Ok(address) => address,
            Err(error) => {
                return Err(error);
            },
        };
        resolution.raw_value = got_address;
        resolution.got_address = Some(got_address);
    }
    Ok(resolution)
}

/// Reserves the space that the entries of a symbol take up. Only dynamic symbols have entries.
pub fn allocate_resolution(
    flags: ValueFlags,
    mem_sizes: &mut OutputSectionPartMap<u64>,
    parts: EntryParts,
)
    requires
        old(mem_sizes).wf(),
        parts.got != parts.plt,
        old(mem_sizes).value(parts.plt.0) + reserved(flags, parts, parts.plt.0) <= u64::MAX,
        old(mem_sizes).value(parts.got.0) + reserved(flags, parts, parts.got.0) <= u64::MAX,
    ensures
        final(mem_sizes).wf(),
        final(mem_sizes).dense() == old(mem_sizes).dense(),
        forall|part: u32|
            #![trigger final(mem_sizes).value(part)]
            final(mem_sizes).value(part) == old(mem_sizes).value(part) + reserved(
                flags,
                parts,
                part,
            ),
{
    if flags.dynamic && flags.plt {
        mem_sizes.increment(parts.plt, PLT_ENTRY_SIZE);
    }
    if flags.dynamic && flags.got {
        mem_sizes.increment(parts.got, GOT_ENTRY_SIZE);
    }
}

/// The addresses of entries are never 0, and a resolution has those that the symbol needs.
pub proof fn lemma_resolution_addresses(
    flags: ValueFlags,
    raw_value: u64,
    dynamic_symbol_index: Option<u32>,
    offsets: Map<u32, u64>,
    parts: EntryParts,
)
    ensures
        resolution_created(flags, raw_value, dynamic_symbol_index, offsets, parts) matches Ok(
            (resolution, _),
        ) ==> {
            &&& resolution.got_address != Some(0u64)
            &&& resolution.plt_address != Some(0u64)
            &&& resolution.got_address is Some <==> flags.got || flags.plt
            &&& resolution.plt_address is Some <==> flags.plt
        },
{
}

/// How far a part goes on when a symbol that needs entries is given its resolution.
pub open spec fn reserved(flags: ValueFlags, parts: EntryParts, part: u32) -> int {
    if part == parts.plt.0 && flags.dynamic && flags.plt {
        PLT_ENTRY_SIZE as int
    } else if part == parts.got.0 && flags.dynamic && flags.got {
        GOT_ENTRY_SIZE as int
    } else {
        0
    }
}

/// The space that is reserved for the entries of a symbol is what its resolution takes up, provided
/// that only dynamic symbols need entries, and that what needs a stub needs an entry of the global
/// offset table too.
pub proof fn lemma_reserved_space_is_taken(
    flags: ValueFlags,
    raw_value: u64,
    dynamic_symbol_index: Option<u32>,
    offsets: Map<u32, u64>,
    parts: EntryParts,
    part: PartId,
)
    requires
        parts.got != parts.plt,
        flags.plt ==> flags.got,
        flags.got ==> flags.dynamic,
    ensures
        resolution_created(flags, raw_value, dynamic_symbol_index, offsets, parts) matches Ok(
            (_, after),
        ) ==> input_sections::offset_of(after, part) == input_sections::offset_of(offsets, part)
            + reserved(flags, parts, part.0),
{
}

} // verus!
