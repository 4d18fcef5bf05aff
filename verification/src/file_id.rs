//! IDs of input files.
use vstd::prelude::*;

verus! {

/// Identifies an input file by its group and its position in the group. ID 0 is the prelude.
#[derive(Clone, Copy, Debug, PartialEq, Eq, PartialOrd, Ord, Hash, Structural)]
pub struct FileId(pub u32);

pub const FILE_INDEX_BITS: u32 = 8;

pub const MAX_FILES_PER_GROUP: u32 = 256;

impl FileId {
    pub open spec fn spec_group(self) -> int {
        self.0 as int / 256
    }

    pub open spec fn spec_file(self) -> int {
        self.0 as int % 256
    }

    /// The file that stands for what the linker itself defines.
    pub fn prelude() -> (id: FileId)
        ensures
            id.0 == 0,
    {
        FileId(0)
    }

    /// The ID of a file in a group.
    pub fn new(group: u32, file: u32) -> (id: FileId)
        requires
            group < 0x100_0000,
            file < MAX_FILES_PER_GROUP,
        ensures
            id.spec_group() == group,
            id.spec_file() == file,
    {
        assert(((group << 8) | file) == group * 256 + file) by (bit_vector)
            requires
                group < 0x100_0000,
                file < 256,
        ;
        FileId((group << FILE_INDEX_BITS) | file)
    }

    pub fn from_encoded(v: u32) -> (id: FileId)
        ensures
            id.0 == v,
    {
        FileId(v)
    }

    /// The group that the file is in.
    pub fn group(self) -> (group: usize)
        ensures
            group == self.spec_group(),
    {
        let raw: u32 = self.0;
        assert(raw >> 8 == raw / 256) by (bit_vector);
        (raw >> FILE_INDEX_BITS) as usize
    }

    /// The position of the file in its group.
    pub fn file(self) -> (file: usize)
        ensures
            file == self.spec_file(),
    {
        let raw: u32 = self.0;
        assert(raw & 255 == raw % 256) by (bit_vector);
        (raw & (MAX_FILES_PER_GROUP - 1)) as usize
    }

    pub fn as_u32(self) -> (raw: u32)
        ensures
            raw == self.0,
    {
        self.0
    }
}

/// Group and position determine the ID.
pub proof fn lemma_file_id_round_trip(a: FileId, b: FileId)
    requires
        a.spec_group() == b.spec_group(),
        a.spec_file() == b.spec_file(),
    ensures
        a == b,
{
}

} // verus!
