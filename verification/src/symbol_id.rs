//! IDs of symbols.
use vstd::prelude::*;

verus! {

/// An ID for a symbol. All symbols of all input files have different IDs. ID 0 is the undefined
/// symbol.
#[derive(Clone, Copy, Debug, PartialEq, Eq, PartialOrd, Ord, Hash, Structural)]
pub struct SymbolId(pub u32);

/// The IDs of the symbols of an input file. A symbol of the file is identified by its ID, by its
/// index in the symbol table of the file, or by its offset in data about the file.
#[derive(Clone, Copy, Debug, PartialEq, Eq, Structural)]
pub struct SymbolIdRange {
    pub start_symbol_id: SymbolId,
    pub num_symbols: usize,
}

/// There are too many symbols for 32-bit IDs.
#[derive(Clone, Copy, Debug, PartialEq, Eq, Structural)]
pub struct TooManySymbols;

impl SymbolId {
    pub fn undefined() -> (id: SymbolId)
        ensures
            id.0 == 0,
    {
        SymbolId(0)
    }

    pub fn new(value: u32) -> (id: SymbolId)
        ensures
            id.0 == value,
    {
        SymbolId(value)
    }

    pub fn from_usize(value: usize) -> (id: SymbolId)
        requires
            value <= u32::MAX,
        ensures
            id.0 == value,
    {
        SymbolId(value as u32)
    }

    /// The ID with the given number, if there is one.
    pub fn try_from_usize(value: usize) -> (id: Result<SymbolId, TooManySymbols>)
        ensures
            id == (if value <= u32::MAX {
                Ok::<SymbolId, TooManySymbols>(SymbolId(value as u32))
            } else {
                Err(TooManySymbols)
            }),
    {
        if value <= u32::MAX as usize {
            Ok(SymbolId(value as u32))
        } else {
            Err(TooManySymbols)
        }
    }

    pub fn as_usize(self) -> (raw: usize)
        ensures
            raw == self.0,
    {
        self.0 as usize
    }

    /// The ID that is the given number of symbols after this one.
    pub fn add_usize(self, offset: usize) -> (id: SymbolId)
        requires
            self.0 + offset <= u32::MAX,
        ensures
            id.0 == self.0 + offset,
    {
        SymbolId(self.0 + offset as u32)
    }

    pub fn offset_from(self, base: SymbolId) -> (offset: usize)
        requires
            base.0 <= self.0,
        ensures
            offset == self.0 - base.0,
    {
        (self.0 - base.0) as usize
    }

    /// The offset of the symbol in its file.
    pub fn to_offset(self, range: SymbolIdRange) -> (offset: usize)
        requires
            range.spec_contains(self),
        ensures
            offset == self.0 - range.start_symbol_id.0,
    {
        range.id_to_offset(self)
    }

    /// The index of the symbol in the symbol table of its file.
    pub fn to_input(self, range: SymbolIdRange) -> (index: usize)
        requires
            range.spec_contains(self),
        ensures
            index == self.0 - range.start_symbol_id.0,
    {
        range.id_to_input(self)
    }

    pub fn is_undefined(self) -> (undefined: bool)
        ensures
            undefined == (self.0 == 0),
    {
        self.0 == 0
    }

    pub fn next(self) -> (id: SymbolId)
        requires
            self.0 < u32::MAX,
        ensures
            id.0 == self.0 + 1,
    {
        SymbolId(self.0 + 1)
    }
}

impl SymbolIdRange {
    /// Whether all IDs of the range are 32-bit numbers.
    pub open spec fn wf(self) -> bool {
        self.start_symbol_id.0 + self.num_symbols <= u32::MAX
    }

    pub open spec fn spec_contains(self, id: SymbolId) -> bool {
        self.start_symbol_id.0 <= id.0 < self.start_symbol_id.0 + self.num_symbols
    }

    /// The ID of the symbol at an offset.
    pub open spec fn id_at(self, offset: int) -> SymbolId {
        SymbolId((self.start_symbol_id.0 + offset) as u32)
    }

    /// The symbols that the linker itself defines.
    pub fn prelude(num_symbols: usize) -> (range: SymbolIdRange)
        ensures
            range.start_symbol_id.0 == 0,
            range.num_symbols == num_symbols,
    {
        SymbolIdRange { start_symbol_id: SymbolId::undefined(), num_symbols }
    }

    pub fn input(start_symbol_id: SymbolId, num_symbols: usize) -> (range: SymbolIdRange)
        ensures
            range == (SymbolIdRange { start_symbol_id, num_symbols }),
    {
        SymbolIdRange { start_symbol_id, num_symbols }
    }

    pub fn empty() -> (range: SymbolIdRange)
        ensures
            range == (SymbolIdRange { start_symbol_id: SymbolId(0), num_symbols: 0 }),
    {
        SymbolIdRange::input(SymbolId::from_usize(0), 0)
    }

    pub fn len(&self) -> (count: usize)
        ensures
            count == self.num_symbols,
    {
        self.num_symbols
    }

    pub fn start(&self) -> (id: SymbolId)
        ensures
            id == self.start_symbol_id,
    {
        self.start_symbol_id
    }

    /// The first number and the one after the last.
    pub fn as_usize(&self) -> (bounds: (usize, usize))
        requires
            self.wf(),
        ensures
            bounds.0 == self.start_symbol_id.0,
            bounds.1 == self.start_symbol_id.0 + self.num_symbols,
    {
        (
            self.start_symbol_id.as_usize(),
            (self.start_symbol_id.0 + self.num_symbols as u32) as usize,
        )
    }

    pub fn offset_to_id(&self, offset: usize) -> (id: SymbolId)
        requires
            self.wf(),
            offset < self.num_symbols,
        ensures
            id == self.id_at(offset as int),
            id.0 == self.start_symbol_id.0 + offset,
    {
        self.start_symbol_id.add_usize(offset)
    }

    pub fn id_to_offset(&self, symbol_id: SymbolId) -> (offset: usize)
        requires
            self.spec_contains(symbol_id),
        ensures
            offset == symbol_id.0 - self.start_symbol_id.0,
            offset < self.num_symbols,
    {
        (symbol_id.0 - self.start_symbol_id.0) as usize
    }

    pub fn offset_to_input(&self, offset: usize) -> (index: usize)
        requires
            offset < self.num_symbols,
        ensures
            index == offset,
    {
        offset
    }

    pub fn input_to_offset(&self, symbol_index: usize) -> (offset: usize)
        requires
            symbol_index < self.num_symbols,
        ensures
            offset == symbol_index,
    {
        symbol_index
    }

    pub fn input_to_id(&self, symbol_index: usize) -> (id: SymbolId)
        requires
            self.wf(),
            symbol_index < self.num_symbols,
        ensures
            id == self.id_at(symbol_index as int),
            id.0 == self.start_symbol_id.0 + symbol_index,
    {
        self.offset_to_id(self.input_to_offset(symbol_index))
    }

    pub fn id_to_input(&self, symbol_id: SymbolId) -> (index: usize)
        requires
            self.spec_contains(symbol_id),
        ensures
            index == symbol_id.0 - self.start_symbol_id.0,
    {
        self.offset_to_input(self.id_to_offset(symbol_id))
    }

    /// The range from the start of `a` to the end of `b`.
    pub fn covering(a: SymbolIdRange, b: SymbolIdRange) -> (range: SymbolIdRange)
        requires
            b.wf(),
            a.start_symbol_id.0 <= b.start_symbol_id.0 + b.num_symbols,
        ensures
            range.start_symbol_id == a.start_symbol_id,
            range.start_symbol_id.0 + range.num_symbols == b.start_symbol_id.0 + b.num_symbols,
    {
        let (_, end) = b.as_usize();
        SymbolIdRange {
            start_symbol_id: a.start_symbol_id,
            num_symbols: end - a.start_symbol_id.as_usize(),
        }
    }

    pub fn contains(&self, id: SymbolId) -> (contained: bool)
        requires
            self.wf(),
        ensures
            contained == self.spec_contains(id),
    {
        let (start, end) = self.as_usize();
        start <= id.as_usize() && id.as_usize() < end
    }

    /// All IDs of the range, in order.
    pub fn ids(&self) -> (ids: Vec<SymbolId>)
        requires
            self.wf(),
        ensures
            ids@ == Seq::new(self.num_symbols as nat, |i: int| self.id_at(i)),
    {
        let mut ids: Vec<SymbolId> = Vec::new();
        while ids.len() < self.num_symbols
            invariant
                self.wf(),
                ids@.len() <= self.num_symbols,
                ids@ == Seq::new(ids@.len(), |i: int| self.id_at(i)),
            decreases self.num_symbols - ids@.len(),
        {
            let id: SymbolId = self.offset_to_id(ids.len());
            ids.push(id);
        }
        ids
    }
}

/// Offsets and IDs of a range correspond to each other.
pub proof fn lemma_symbol_id_round_trip(range: SymbolIdRange, offset: int, id: SymbolId)
    requires
        range.wf(),
    ensures
        0 <= offset < range.num_symbols ==> range.spec_contains(range.id_at(offset))
            && range.id_at(offset).0 - range.start_symbol_id.0 == offset,
        range.spec_contains(id) ==> range.id_at(id.0 - range.start_symbol_id.0) == id,
{
}

} // verus!
