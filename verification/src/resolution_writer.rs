//! Writes the resolutions of symbols, group by group, to where the resolutions of all symbols are.
use crate::group_layout;
use crate::group_layout::{FileToPlace, GroupContext, GroupLayout, PlacedFile};
use crate::object_layout::SymbolsView;
use crate::resolution::Resolution;
use vstd::prelude::*;

verus! {

/// A part of a `Vec` of the `sharded_vec_writer` crate that is filled on its own.
#[verifier::external_type_specification]
#[verifier::external_body]
#[verifier::reject_recursive_types(T)]
pub struct ExShard<'vec, T>(sharded_vec_writer::Shard<'vec, T>);

/// The error of the `sharded_vec_writer` crate if a shard is full.
#[verifier::external_type_specification]
#[verifier::external_body]
pub struct ExInsufficientCapacity(sharded_vec_writer::InsufficientCapacity);

/// What has been written to a shard.
pub uninterp spec fn shard_written(
    shard: sharded_vec_writer::Shard<'_, Option<Resolution>>,
) -> Seq<Option<Resolution>>;

/// How much can be written to a shard.
pub uninterp spec fn shard_size(shard: sharded_vec_writer::Shard<'_, Option<Resolution>>) -> nat;

/// Calls `sharded_vec_writer::Shard::try_push`, which appends a value unless the shard is full. The
/// size of the shard stays as it is.
#[verifier::external_body]
fn shard_try_push(
    shard: &mut sharded_vec_writer::Shard<'_, Option<Resolution>>,
    value: Option<Resolution>,
) -> (result: Result<(), sharded_vec_writer::InsufficientCapacity>)
    ensures
        shard_size(*final(shard)) == shard_size(*old(shard)),
        shard_written(*old(shard)).len() < shard_size(*old(shard)) ==> result is Ok
            && shard_written(*final(shard)) == shard_written(*old(shard)).push(value),
        shard_written(*old(shard)).len() >= shard_size(*old(shard)) ==> result is Err
            && shard_written(*final(shard)) == shard_written(*old(shard)),
{
    shard.try_push(value).map(|_| ())
}

/// There are more symbols than there is space for resolutions.
#[derive(Clone, Copy, Debug, PartialEq, Eq, Structural)]
pub struct TooManyResolutions;

/// Receives the resolutions of the symbols of a group.
pub struct ResolutionWriter<'out> {
    pub resolutions_out: sharded_vec_writer::Shard<'out, Option<Resolution>>,
}

impl<'out> ResolutionWriter<'out> {
    /// What has been written.
    pub open spec fn written(&self) -> Seq<Option<Resolution>> {
        shard_written(self.resolutions_out)
    }

    /// How much can be written.
    pub open spec fn size(&self) -> nat {
        shard_size(self.resolutions_out)
    }

    /// Writes the resolution of the next symbol.
    pub fn write(&mut self, resolution: Option<Resolution>) -> (result: Result<
        (),
        TooManyResolutions,
    >)
        ensures
            final(self).size() == old(self).size(),
            result is Ok <==> old(self).written().len() < old(self).size(),
            final(self).written() == (if old(self).written().len() < old(self).size() {
                old(self).written().push(resolution)
            } else {
                old(self).written()
            }),
    {
        match shard_try_push(&mut self.resolutions_out, resolution) {
            Ok(_) => Ok(()),
            Err(_) => Err(TooManyResolutions),
        }
    }

    /// How much can still be written.
    pub open spec fn room(&self) -> int {
        if self.written().len() < self.size() {
            self.size() - self.written().len()
        } else {
            0
        }
    }

    /// Writes the resolutions of the next symbols, as far as there is space for them.
    pub fn write_all(&mut self, resolutions: &Vec<Option<Resolution>>) -> (result: Result<
        (),
        TooManyResolutions,
    >)
        ensures
            final(self).size() == old(self).size(),
            result is Ok <==> resolutions@.len() <= old(self).room(),
            final(self).written() == old(self).written() + fitting(
                resolutions@,
                old(self).room(),
            ),
    {
        let ghost before = self.written();
        let ghost room = self.room();
        let mut i: usize = 0;
        assert(before =~= before + resolutions@.take(0));
        while i < resolutions.len()
            invariant
                i <= resolutions@.len(),
                i <= room,
                before == old(self).written(),
                room == old(self).room(),
                self.size() == old(self).size(),
                self.written() == before + resolutions@.take(i as int),
            decreases resolutions@.len() - i,
        {
            match self.write(resolutions[i]) {
                Ok(_) => {},
                Err(error) => {
                    assert(i == room);
                    return Err(error);
                },
            }
            assert(before + resolutions@.take(i + 1) =~= (before + resolutions@.take(
                i as int,
            )).push(resolutions@[i as int]));
            i = i + 1;
        }
        assert(resolutions@.take(i as int) =~= resolutions@);
        Ok(())
    }

    /// Writes the resolutions of all symbols of a group, file by file, as far as there is space for
    /// them.
    pub fn write_group(&mut self, group: &GroupLayout) -> (result: Result<(), TooManyResolutions>)
        ensures
            final(self).size() == old(self).size(),
            ({
                let all = resolutions_in(group.files@, group.files@.len() as int);
                &&& result is Ok <==> all.len() <= old(self).room()
                &&& final(self).written() == old(self).written() + fitting(all, old(self).room())
            }),
    {
        let ghost before = self.written();
        let ghost room = self.room();
        let ghost files = group.files@;
        let ghost total = files.len() as int;
        let mut f: usize = 0;
        assert(before =~= before + resolutions_in(files, 0));
        while f < group.files.len()
            invariant
                f <= files.len(),
                files == group.files@,
                total == files.len(),
                before == old(self).written(),
                room == old(self).room(),
                self.size() == old(self).size(),
                resolutions_in(files, f as int).len() <= room,
                self.written() == before + resolutions_in(files, f as int),
            decreases files.len() - f,
        {
            let ghost done = resolutions_in(files, f as int);
            let ghost own = resolutions_of(files[f as int]);
            let ghost left = self.room();
            assert(left == room - done.len());
            let result: Result<(), TooManyResolutions> = match &group.files[f] {
                PlacedFile::Object(layout) => self.write_all(&layout.resolutions),
                PlacedFile::Symbols(resolutions) => self.write_all(resolutions),
            };
            assert(self.written() == before + done + fitting(own, left));
            match result {
                Ok(_) => {
                    assert(before + done + own =~= before + resolutions_in(files, f + 1));
                },
                Err(error) => {
                    proof {
                        let all = resolutions_in(files, total);
                        lemma_resolutions_prefix(files, f + 1, total);
                        assert(all.take((done + own).len() as int) == done + own);
                        assert(all.take(room) =~= done + own.take(left)) by {
                            assert forall|k: int| 0 <= k < room implies #[trigger] all.take(room)[k]
                                == (done + own.take(left))[k] by {
                                assert(all.take((done + own).len() as int)[k] == all[k]);
                            }
                        }
                        assert(before + done + own.take(left) =~= before + all.take(room));
                    }
                    return Err(error);
                },
            }
            f = f + 1;
        }
        Ok(())
    }
}

/// As many of the resolutions as there is space for.
pub open spec fn fitting(resolutions: Seq<Option<Resolution>>, room: int) -> Seq<
    Option<Resolution>,
> {
    if resolutions.len() <= room {
        resolutions
    } else {
        resolutions.take(room)
    }
}

/// The resolutions of the symbols of a file.
pub open spec fn resolutions_of(file: PlacedFile) -> Seq<Option<Resolution>> {
    match file {
        PlacedFile::Object(layout) => layout.resolutions@,
        PlacedFile::Symbols(resolutions) => resolutions@,
    }
}

/// The resolutions of the symbols of the first `count` files, one after the other.
pub open spec fn resolutions_in(files: Seq<PlacedFile>, count: int) -> Seq<Option<Resolution>>
    decreases count,
{
    if count <= 0 {
        Seq::empty()
    } else {
        resolutions_in(files, count - 1) + resolutions_of(files[count - 1])
    }
}

proof fn lemma_resolutions_prefix(files: Seq<PlacedFile>, count: int, total: int)
    requires
        0 <= count <= total,
    ensures
        resolutions_in(files, count).len() <= resolutions_in(files, total).len(),
        resolutions_in(files, total).take(resolutions_in(files, count).len() as int)
            == resolutions_in(files, count),
    decreases total - count,
{
    let done = resolutions_in(files, count);
    if count < total {
        lemma_resolutions_prefix(files, count, total - 1);
        let before = resolutions_in(files, total - 1);
        let all = resolutions_in(files, total);
        assert(all.take(done.len() as int) =~= before.take(done.len() as int));
    } else {
        assert(done.take(done.len() as int) =~= done);
    }
}

/// What a group writes is the resolution of every symbol of its files, in the order of the files
/// and of the symbols.
pub proof fn lemma_group_writes_its_resolutions<'a, 'data>(
    placed: Seq<PlacedFile>,
    files: Seq<FileToPlace<'a, 'data>>,
    ctx: &GroupContext<'a, 'data>,
    start: SymbolsView,
    count: int,
)
    requires
        group_layout::files_placed(placed, files, ctx, start),
        0 <= count <= files.len(),
    ensures
        group_layout::group_resolutions(files, ctx, start, count) matches Ok((resolutions, _))
            ==> resolutions.len() == count && resolutions_in(placed, count)
            == group_layout::all_resolutions(resolutions, count),
    decreases count,
{
    if count > 0 && group_layout::group_resolutions(files, ctx, start, count) is Ok {
        lemma_group_writes_its_resolutions(placed, files, ctx, start, count - 1);
        let (before, state) = group_layout::group_resolutions(files, ctx, start, count - 1)->Ok_0;
        let resolutions = (group_layout::group_resolutions(files, ctx, start, count)->Ok_0).0;
        assert(group_layout::is_placed(
            placed[count - 1],
            files[count - 1],
            ctx,
            group_layout::before_file(files, ctx, start, count - 1),
        ));
        group_layout::lemma_all_resolutions_prefix(before, resolutions, count - 1);
    }
}

} // verus!
