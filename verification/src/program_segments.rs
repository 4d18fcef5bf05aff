//! The segments of the output.
use vstd::prelude::*;

verus! {

/// An ID for a segment. It is independent of the order in which segments are emitted.
#[derive(Clone, Copy, Debug, PartialEq, Eq, PartialOrd, Ord, Hash, Structural)]
pub struct ProgramSegmentId(pub usize);

/// The properties of a segment.
#[derive(Clone, Copy, Debug, PartialEq, Eq, Structural)]
pub struct ProgramSegmentDef {
    pub writable: bool,
    pub executable: bool,
    pub always_keep: bool,
    pub loadable: bool,
    pub stack: bool,
    pub tls: bool,
    /// Segments with lower values come first.
    pub order_key: usize,
}

/// The segments of the output.
#[derive(Debug)]
pub struct ProgramSegments {
    pub defs: Vec<ProgramSegmentDef>,
}

impl ProgramSegmentId {
    pub fn new(raw: usize) -> (id: ProgramSegmentId)
        ensures
            id.0 == raw,
    {
        ProgramSegmentId(raw)
    }

    pub fn as_usize(self) -> (raw: usize)
        ensures
            raw == self.0,
    {
        self.0
    }
}

impl ProgramSegments {
    pub open spec fn has(&self, id: ProgramSegmentId) -> bool {
        id.0 < self.defs@.len()
    }

    pub open spec fn def(&self, id: ProgramSegmentId) -> ProgramSegmentDef {
        self.defs@[id.0 as int]
    }

    pub fn len(&self) -> (count: usize)
        ensures
            count == self.defs@.len(),
    {
        self.defs.len()
    }

    pub fn segment_def(&self, id: ProgramSegmentId) -> (def: ProgramSegmentDef)
        requires
            self.has(id),
        ensures
            def == self.def(id),
    {
        self.defs[id.0]
    }

    /// Whether the segment is loaded into memory.
    pub fn is_load_segment(&self, id: ProgramSegmentId) -> (load: bool)
        requires
            self.has(id),
        ensures
            load == self.def(id).loadable,
    {
        self.defs[id.0].loadable
    }

    /// Whether the segment holds the initial thread-local data.
    pub fn is_tls_segment(&self, id: ProgramSegmentId) -> (tls: bool)
        requires
            self.has(id),
        ensures
            tls == self.def(id).tls,
    {
        self.defs[id.0].tls
    }

    /// Whether the segment describes the stack.
    pub fn is_stack_segment(&self, id: ProgramSegmentId) -> (stack: bool)
        requires
            self.has(id),
        ensures
            stack == self.def(id).stack,
    {
        self.defs[id.0].stack
    }
}

} // verus!
