//! A value for each output section.
use crate::output_section_id::OutputSectionId;
use vstd::prelude::*;

verus! {

/// Types of which a fresh map holds one particular value everywhere.
pub trait DefaultValue: Copy {
    spec fn spec_default() -> Self;

    fn default_value() -> (value: Self)
        ensures
            value == Self::spec_default(),
    ;

    fn is_default(self) -> (default: bool)
        ensures
            default == (self == Self::spec_default()),
    ;
}

impl DefaultValue for u64 {
    open spec fn spec_default() -> u64 {
        0
    }

    fn default_value() -> (value: u64) {
        0
    }

    fn is_default(self) -> (default: bool) {
        self == 0
    }
}

impl DefaultValue for u32 {
    open spec fn spec_default() -> u32 {
        0
    }

    fn default_value() -> (value: u32) {
        0
    }

    fn is_default(self) -> (default: bool) {
        self == 0
    }
}

impl DefaultValue for bool {
    open spec fn spec_default() -> bool {
        false
    }

    fn default_value() -> (value: bool) {
        false
    }

    fn is_default(self) -> (default: bool) {
        !self
    }
}

impl DefaultValue for Option<u64> {
    open spec fn spec_default() -> Option<u64> {
        None
    }

    fn default_value() -> (value: Option<u64>) {
        None
    }

    fn is_default(self) -> (default: bool) {
        self.is_none()
    }
}

/// A map from output section IDs to values. Every section up to the last has one.
#[derive(Debug)]
pub struct OutputSectionMap<T> {
    values: Vec<T>,
}

impl<T> View for OutputSectionMap<T> {
    type V = Seq<T>;

    closed spec fn view(&self) -> Seq<T> {
        self.values@
    }
}

impl<T> OutputSectionMap<T> {
    pub fn from_values(values: Vec<T>) -> (map: OutputSectionMap<T>)
        ensures
            map@ == values@,
    {
        OutputSectionMap { values }
    }

    /// The number of sections.
    pub fn len(&self) -> (count: usize)
        ensures
            count == self@.len(),
    {
        self.values.len()
    }

    pub fn get(&self, id: OutputSectionId) -> (value: &T)
        requires
            id.0 < self@.len(),
        ensures
            *value == self@[id.0 as int],
    {
        &self.values[id.0 as usize]
    }

    pub fn get_mut(&mut self, id: OutputSectionId) -> (value: &mut T)
        requires
            id.0 < old(self)@.len(),
        ensures
            *value == old(self)@[id.0 as int],
            final(self)@ == old(self)@.update(id.0 as int, *final(value)),
    {
        &mut self.values[id.0 as usize]
    }

    pub fn set(&mut self, id: OutputSectionId, value: T)
        requires
            id.0 < old(self)@.len(),
        ensures
            final(self)@ == old(self)@.update(id.0 as int, value),
    {
        self.values.set(id.0 as usize, value);
    }

    /// Adds a section and returns its ID.
    pub fn add_new(&mut self, value: T) -> (id: OutputSectionId)
        requires
            old(self)@.len() <= u32::MAX,
        ensures
            final(self)@ == old(self)@.push(value),
            id.0 == old(self)@.len(),
    {
        let id: OutputSectionId = OutputSectionId::from_usize(self.values.len());
        self.values.push(value);
        id
    }
}

impl<T: DefaultValue> OutputSectionMap<T> {
    /// A map of the given number of sections, each with the default value.
    pub fn with_size(size: usize) -> (map: OutputSectionMap<T>)
        ensures
            map@ == Seq::new(size as nat, |i: int| T::spec_default()),
    {
        let mut values: Vec<T> = Vec::new();
        while values.len() < size
            invariant
                values@ == Seq::new(values@.len(), |i: int| T::spec_default()),
                values@.len() <= size,
            decreases size - values@.len(),
        {
            values.push(T::default_value());
        }
        OutputSectionMap { values }
    }
}

impl<T: Copy> OutputSectionMap<T> {
    /// A copy of the map.
    pub fn duplicate(&self) -> (map: OutputSectionMap<T>)
        ensures
            map@ == self@,
    {
        let mut values: Vec<T> = Vec::new();
        let mut i: usize = 0;
        while i < self.values.len()
            invariant
                i <= self.values@.len(),
                values@ == self.values@.take(i as int),
            decreases self.values@.len() - i,
        {
            values.push(self.values[i]);
            i = i + 1;
        }
        OutputSectionMap { values }
    }
}

} // verus!
