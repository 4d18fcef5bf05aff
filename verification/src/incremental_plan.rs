//! What an incremental link decides before the output is written.
use crate::hash_maps::IdMap;
use crate::layout_queries::{Layout, ReverseReloc};
use vstd::prelude::*;

verus! {

/// Why inputs are linked from scratch though an incremental link was asked for.
#[derive(Clone, Copy, Debug)]
pub enum Fallback<'a> {
    /// Plugins or garbage collection do not go with incremental links. Holds the reason.
    PluginOrGc(&'a str),
    /// There are sections whose contents have to stay in order.
    StrictOrder,
}

/// The reasons to link from scratch, in the order in which they are recorded.
pub open spec fn fallbacks<'a>(
    plugin_or_gc: Option<&'a str>,
    has_strict_order_sections: bool,
) -> Seq<Fallback<'a>> {
    let first = match plugin_or_gc {
        Some(reason) => seq![Fallback::PluginOrGc(reason)],
        None => Seq::empty(),
    };
    if has_strict_order_sections {
        first.push(Fallback::StrictOrder)
    } else {
        first
    }
}

/// The reasons to link from scratch, in the order in which they are recorded.
pub fn fallback_reasons<'a>(
    plugin_or_gc: Option<&'a str>,
    has_strict_order_sections: bool,
) -> (reasons: Vec<Fallback<'a>>)
    ensures
        reasons@ == fallbacks(plugin_or_gc, has_strict_order_sections),
{
    let mut reasons: Vec<Fallback<'a>> = Vec::new();
    if let Some(reason) = plugin_or_gc {
        reasons.push(Fallback::PluginOrGc(reason));
    }
    if has_strict_order_sections {
        reasons.push(Fallback::StrictOrder);
    }
    assert(reasons@ =~= fallbacks(plugin_or_gc, has_strict_order_sections));
    reasons
}

impl<'a> Fallback<'a> {
    /// What is recorded.
    pub open spec fn spec_text(self) -> Seq<char> {
        match self {
            Fallback::PluginOrGc(reason) => reason@,
            Fallback::StrictOrder => "strict-order .init/.fini"@,
        }
    }

    /// What is recorded.
    pub fn text(self) -> (text: &'a str)
        ensures
            text@ == self.spec_text(),
    {
        match self {
            Fallback::PluginOrGc(reason) => reason,
            Fallback::StrictOrder => "strict-order .init/.fini",
        }
    }
}

/// What the previous link has left for this one.
#[derive(Debug)]
pub struct PreviousLink {
    /// The values of the symbols of each unit.
    pub resolutions: Option<Vec<(u64, Vec<u64>)>>,
    pub reverse_relocs: Option<Vec<ReverseReloc>>,
}

/// What it takes to update files whose contents are already in the output.
#[derive(Debug)]
pub struct IncrementalPatchJob {
    pub old_resolutions: Vec<(u64, Vec<u64>)>,
    pub reverse_relocs: Vec<ReverseReloc>,
}

impl PreviousLink {
    /// The job of updating the files that are skipped. There is none if no file is skipped, or if
    /// the previous link has not left all that it takes.
    pub open spec fn job(self, skips_files: bool) -> Option<IncrementalPatchJob> {
        match (self.resolutions, self.reverse_relocs) {
            (Some(old_resolutions), Some(reverse_relocs)) if skips_files => Some(
                IncrementalPatchJob { old_resolutions, reverse_relocs },
            ),
            _ => None,
        }
    }

    /// Makes the job of updating the files that are skipped. If there are such files, what the
    /// previous link has left is gone afterwards.
    pub fn take_patch_job(&mut self, skips_files: bool) -> (job: Option<IncrementalPatchJob>)
        ensures
            job == old(self).job(skips_files),
            skips_files ==> final(self).resolutions is None && final(self).reverse_relocs is None,
            !skips_files ==> *final(self) == *old(self),
    {
        if !skips_files {
            return None;
        }
        let resolutions: Option<Vec<(u64, Vec<u64>)>> = self.resolutions.take();
        let reverse_relocs: Option<Vec<ReverseReloc>> = self.reverse_relocs.take();
        match (resolutions, reverse_relocs) {
            (Some(old_resolutions), Some(reverse_relocs)) => Some(
                IncrementalPatchJob { old_resolutions, reverse_relocs },
            ),
            _ => None,
        }
    }
}

impl<'data> Layout<'data> {
    /// Takes over what was planned for an incremental link: the unit of each file, and the files
    /// whose contents are already in the output. If there are such files, they are updated with
    /// what the previous link has left.
    pub fn plan_in_place_update(
        &mut self,
        atoms: IdMap,
        skip_payloads: IdMap,
        previous: &mut PreviousLink,
    )
        ensures
            *final(self) == (Layout {
                incremental_atoms: atoms,
                incremental_skip_payloads: skip_payloads,
                incremental_patch: if skip_payloads@.dom().is_empty() {
                    old(self).incremental_patch
                } else {
                    match old(previous).job(true) {
                        Some(job) => Some(job),
                        None => old(self).incremental_patch,
                    }
                },
                ..*old(self)
            }),
            skip_payloads@.dom().is_empty() ==> *final(previous) == *old(previous),
            !skip_payloads@.dom().is_empty() ==> final(previous).resolutions is None
                && final(previous).reverse_relocs is None,
    {
        let keys: Vec<u64> = skip_payloads.keys();
        let skips_files: bool = keys.len() > 0;
        proof {
            if skips_files {
                assert(keys@.to_set().contains(keys@[0]));
            } else {
                assert(keys@.to_set() =~= Set::empty());
            }
        }
        self.incremental_atoms = atoms;
        self.incremental_skip_payloads = skip_payloads;
        if let Some(job) = previous.take_patch_job(skips_files) {
            self.incremental_patch = Some(job);
        }
    }
}

} // verus!
