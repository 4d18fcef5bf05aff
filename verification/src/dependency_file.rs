//! What is written about a link besides the output.
use crate::bytes::{append_bytes, bytes_equal, copy_bytes};
use crate::hash_maps::NameMap;
use crate::output_section_id::OutputSectionId;
use crate::output_section_map::OutputSectionMap;
use crate::output_sections::{OutputSections, SectionKind};
use crate::record_layout::OutputRecordLayout;
use vstd::prelude::*;

verus! {

/// A file that was read.
#[derive(Clone, Copy, Debug)]
pub struct LoadedFile<'data> {
    pub path: &'data [u8],
    /// The file was generated during the link and is removed after it.
    pub temporary: bool,
}

/// The paths of the first `count` files, each once, in the order in which they were first read.
/// Temporary files are left out.
pub open spec fn dependencies(files: Seq<LoadedFile>, count: int) -> Seq<Seq<u8>>
    decreases count,
{
    if count <= 0 {
        Seq::empty()
    } else {
        let before = dependencies(files, count - 1);
        let file = files[count - 1];
        if file.temporary || before.contains(file.path@) {
            before
        } else {
            before.push(file.path@)
        }
    }
}

/// The contents of a list of paths.
pub open spec fn paths_of(paths: Seq<&[u8]>) -> Seq<Seq<u8>> {
    Seq::new(paths.len(), |i: int| paths[i]@)
}

/// The paths of the files that the output depends on.
pub fn collect_dependencies<'data>(files: &Vec<LoadedFile<'data>>) -> (paths: Vec<&'data [u8]>)
    ensures
        paths_of(paths@) == dependencies(files@, files@.len() as int),
{
    let mut seen: NameMap = NameMap::new();
    let mut paths: Vec<&'data [u8]> = Vec::new();
    assert(paths_of(paths@) =~= dependencies(files@, 0));
    let mut i: usize = 0;
    while i < files.len()
        invariant
            i <= files@.len(),
            paths_of(paths@) == dependencies(files@, i as int),
            forall|path: Seq<u8>|
                seen@.contains_key(path) == #[trigger] dependencies(files@, i as int).contains(
                    path,
                ),
        decreases files@.len() - i,
    {
        let file: LoadedFile<'data> = files[i];
        let ghost before = dependencies(files@, i as int);
        if !file.temporary {
            if seen.get(file.path).is_none() {
                assert(!before.contains(file.path@));
                let ghost so_far = paths@;
                let ghost seen_before = seen@;
                seen.insert(copy_bytes(file.path), 0);
                paths.push(file.path);
                assert(paths_of(paths@) =~= paths_of(so_far).push(file.path@));
                let ghost after = before.push(file.path@);
                assert forall|path: Seq<u8>|
                    seen@.contains_key(path) == #[trigger] after.contains(path) by {
                    if path == file.path@ {
                        assert(after[before.len() as int] == path);
                    } else {
                        if before.contains(path) {
                            let k = choose|k: int| 0 <= k < before.len() && before[k] == path;
                            assert(after[k] == path);
                        }
                        if after.contains(path) {
                            let k = choose|k: int| 0 <= k < after.len() && after[k] == path;
                            assert(before[k] == path);
                        }
                        assert(seen_before.contains_key(path) == before.contains(path));
                    }
                }
            } else {
                assert(seen@.contains_key(file.path@));
                assert(before.contains(file.path@));
            }
        }
        i = i + 1;
    }
    paths
}

/// A space and a path, for each of the first `count` paths.
pub open spec fn listed(paths: Seq<Seq<u8>>, count: int) -> Seq<u8>
    decreases count,
{
    if count <= 0 {
        Seq::empty()
    } else {
        listed(paths, count - 1) + seq![0x20u8] + paths[count - 1]
    }
}

/// A rule without prerequisites, for each of the first `count` paths.
pub open spec fn empty_rules(paths: Seq<Seq<u8>>, count: int) -> Seq<u8>
    decreases count,
{
    if count <= 0 {
        Seq::empty()
    } else {
        empty_rules(paths, count - 1) + seq![0x0au8] + paths[count - 1] + seq![0x3au8, 0x0a]
    }
}

/// The text of a dependency file: a rule that names the files which the output depends on, and a
/// rule without prerequisites for each of them.
pub open spec fn dependency_text(output: Seq<u8>, paths: Seq<Seq<u8>>) -> Seq<u8> {
    output + seq![0x3au8] + listed(paths, paths.len() as int) + seq![0x0au8] + empty_rules(
        paths,
        paths.len() as int,
    )
}

/// The text of a dependency file.
pub fn write_dependency_file<'data>(output: &[u8], files: &Vec<LoadedFile<'data>>) -> (text: Vec<
    u8,
>)
    ensures
        text@ == dependency_text(output@, dependencies(files@, files@.len() as int)),
{
    let paths: Vec<&'data [u8]> = collect_dependencies(files);
    let ghost expected = paths_of(paths@);
    let mut text: Vec<u8> = copy_bytes(output);
    text.push(0x3a);
    let ghost head = output@ + seq![0x3au8];
    assert(text@ =~= head);
    assert(head =~= head + listed(expected, 0));
    let mut i: usize = 0;
    while i < paths.len()
        invariant
            i <= paths@.len(),
            expected == paths_of(paths@),
            text@ == head + listed(expected, i as int),
        decreases paths@.len() - i,
    {
        text.push(0x20);
        append_bytes(&mut text, paths[i]);
        assert(expected[i as int] == paths@[i as int]@);
        assert(text@ =~= head + listed(expected, i + 1));
        i = i + 1;
    }
    text.push(0x0a);
    let ghost first = head + listed(expected, paths@.len() as int) + seq![0x0au8];
    assert(text@ =~= first);
    assert(first =~= first + empty_rules(expected, 0));
    i = 0;
    while i < paths.len()
        invariant
            i <= paths@.len(),
            expected == paths_of(paths@),
            text@ == first + empty_rules(expected, i as int),
        decreases paths@.len() - i,
    {
        text.push(0x0a);
        append_bytes(&mut text, paths[i]);
        text.push(0x3a);
        text.push(0x0a);
        assert(expected[i as int] == paths@[i as int]@);
        assert(text@ =~= first + empty_rules(expected, i + 1));
        i = i + 1;
    }
    assert(expected.len() == paths@.len());
    text
}

/// No path is named twice.
pub proof fn lemma_dependencies_unique(files: Seq<LoadedFile>, count: int)
    ensures
        dependencies(files, count).no_duplicates(),
    decreases count,
{
    if count > 0 {
        lemma_dependencies_unique(files, count - 1);
    }
}

/// What is recorded of a section so that the next link can compare.
#[derive(Clone, Copy, Debug)]
pub struct PersistedSection<'data> {
    pub name: &'data [u8],
    pub file_offset: u64,
    pub file_size: u64,
    pub mem_size: u64,
}

/// The name of the section of code that runs first: `.init`.
pub open spec fn init_name() -> Seq<u8> {
    seq![0x2eu8, 0x69, 0x6e, 0x69, 0x74]
}

/// The name of the section of code that runs last: `.fini`.
pub open spec fn fini_name() -> Seq<u8> {
    seq![0x2eu8, 0x66, 0x69, 0x6e, 0x69]
}

/// The name of a section; empty if it has none.
pub open spec fn name_of<'data>(sections: &OutputSections<'data>, id: int) -> Seq<u8> {
    match sections.infos()[id].kind {
        SectionKind::Primary(identity) => identity.name@,
        SectionKind::Secondary(_) => Seq::empty(),
    }
}

/// Whether the order of the contents of a section matters.
pub open spec fn has_strict_order<'data>(
    sections: &OutputSections<'data>,
    layouts: Seq<OutputRecordLayout>,
    id: int,
) -> bool {
    layouts[id].mem_size > 0 && (name_of(sections, id) == init_name() || name_of(sections, id)
        == fini_name())
}

/// What is recorded of the sections, and whether there is a section whose contents have to stay in
/// order.
pub fn incremental_section_snapshot<'data>(
    sections: &OutputSections<'data>,
    layouts: &OutputSectionMap<OutputRecordLayout>,
) -> (snapshot: (Vec<PersistedSection<'data>>, bool))
    requires
        sections.wf(),
        layouts@.len() == sections.count(),
    ensures
        snapshot.0@.len() == sections.count(),
        forall|i: int|
            0 <= i < sections.count() ==> (#[trigger] snapshot.0@[i]).name@ == name_of(sections, i)
                && snapshot.0@[i].file_offset == layouts@[i].file_offset
                && snapshot.0@[i].file_size == layouts@[i].file_size && snapshot.0@[i].mem_size
                == layouts@[i].mem_size,
        snapshot.1 == exists|i: int|
            0 <= i < sections.count() && #[trigger] has_strict_order(sections, layouts@, i),
{
    let init: [u8; 5] = [0x2e, 0x69, 0x6e, 0x69, 0x74];
    let fini: [u8; 5] = [0x2e, 0x66, 0x69, 0x6e, 0x69];
    assert(init@ =~= init_name());
    assert(fini@ =~= fini_name());
    let mut persisted: Vec<PersistedSection<'data>> = Vec::new();
    let mut strict: bool = false;
    let count: usize = sections.num_sections();
    let mut i: usize = 0;
    while i < count
        invariant
            i <= count,
            count == sections.count(),
            sections.wf(),
            layouts@.len() == count,
            init@ == init_name(),
            fini@ == fini_name(),
            persisted@.len() == i,
            forall|k: int|
                0 <= k < i ==> (#[trigger] persisted@[k]).name@ == name_of(sections, k)
                    && persisted@[k].file_offset == layouts@[k].file_offset
                    && persisted@[k].file_size == layouts@[k].file_size && persisted@[k].mem_size
                    == layouts@[k].mem_size,
            strict == exists|k: int|
                0 <= k < i && #[trigger] has_strict_order(sections, layouts@, k),
        decreases count - i,
    {
        assert(sections.platform.base_part(sections.count()) <= u32::MAX);
        let id: OutputSectionId = OutputSectionId(i as u32);
        let empty: &'static [u8] = &[];
        assert(empty@ =~= Seq::empty());
        let name: &'data [u8] = match sections.name(id) {
            Some(name) => name,
            None => empty,
        };
        let layout: &OutputRecordLayout = layouts.get(id);
        let is_strict: bool = layout.mem_size > 0 && (bytes_equal(name, init.as_slice())
            || bytes_equal(name, fini.as_slice()));
        assert(is_strict == has_strict_order(sections, layouts@, i as int));
        let ghost was_strict = strict;
        if is_strict {
            strict = true;
        }
        proof {
            if was_strict {
                let k = choose|k: int|
                    0 <= k < i && #[trigger] has_strict_order(sections, layouts@, k);
                assert(has_strict_order(sections, layouts@, k));
            }
        }
        persisted.push(
            PersistedSection {
                name,
                file_offset: layout.file_offset,
                file_size: layout.file_size,
                mem_size: layout.mem_size,
            },
        );
        i = i + 1;
    }
    (persisted, strict)
}

} // verus!
