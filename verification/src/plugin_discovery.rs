//! Where linker plugins are found.
use crate::bytes::{append_bytes, bytes_start_with, copy_bytes};
use vstd::prelude::*;
use vstd::slice::slice_subrange;

verus! {

/// `lib/LLVMgold.so`.
pub open spec fn lib_plugin() -> Seq<u8> {
    seq![0x6cu8, 0x69, 0x62, 0x2f] + gold_plugin()
}

/// `LLVMgold.so`.
pub open spec fn gold_plugin() -> Seq<u8> {
    seq![0x4cu8, 0x4c, 0x56, 0x4d, 0x67, 0x6f, 0x6c, 0x64, 0x2e, 0x73, 0x6f]
}

/// `/usr/lib/`.
pub open spec fn usr_lib() -> Seq<u8> {
    seq![0x2fu8, 0x75, 0x73, 0x72, 0x2f, 0x6c, 0x69, 0x62, 0x2f]
}

/// `llvm-`.
pub open spec fn llvm_prefix() -> Seq<u8> {
    seq![0x6cu8, 0x6c, 0x76, 0x6d, 0x2d]
}

/// The path of something in a directory.
pub open spec fn joined(directory: Seq<u8>, relative: Seq<u8>) -> Seq<u8> {
    if directory.len() == 0 || directory.last() == 0x2f {
        directory + relative
    } else {
        directory + seq![0x2fu8] + relative
    }
}

/// The path of something in a directory.
pub fn join_path(directory: &[u8], relative: &[u8]) -> (path: Vec<u8>)
    ensures
        path@ == joined(directory@, relative@),
{
    let mut path: Vec<u8> = copy_bytes(directory);
    if directory.len() != 0 && directory[directory.len() - 1] != 0x2f {
        path.push(0x2f);
    }
    append_bytes(&mut path, relative);
    assert(path@ =~= joined(directory@, relative@));
    path
}

/// Whether one byte string comes before another in the order of their bytes.
pub open spec fn comes_before(a: Seq<u8>, b: Seq<u8>) -> bool
    decreases a.len(),
{
    if b.len() == 0 {
        false
    } else if a.len() == 0 {
        true
    } else if a[0] != b[0] {
        a[0] < b[0]
    } else {
        comes_before(a.skip(1), b.skip(1))
    }
}

/// Whether one byte string comes before another in the order of their bytes.
pub fn bytes_come_before(a: &[u8], b: &[u8]) -> (before: bool)
    ensures
        before == comes_before(a@, b@),
{
    let mut i: usize = 0;
    assert(a@.skip(0) =~= a@);
    assert(b@.skip(0) =~= b@);
    while i < a.len() && i < b.len() && a[i] == b[i]
        invariant
            i <= a@.len(),
            i <= b@.len(),
            comes_before(a@, b@) == comes_before(a@.skip(i as int), b@.skip(i as int)),
        decreases a@.len() - i,
    {
        assert(a@.skip(i as int).skip(1) =~= a@.skip(i + 1));
        assert(b@.skip(i as int).skip(1) =~= b@.skip(i + 1));
        i = i + 1;
    }
    if i >= b.len() {
        false
    } else if i >= a.len() {
        true
    } else {
        a[i] < b[i]
    }
}

/// The order of bytes is transitive.
pub proof fn lemma_comes_before_transitive(a: Seq<u8>, b: Seq<u8>, c: Seq<u8>)
    requires
        comes_before(a, b),
        comes_before(b, c),
    ensures
        comes_before(a, c),
    decreases a.len(),
{
    if a.len() > 0 && b.len() > 0 && c.len() > 0 && a[0] == b[0] && b[0] == c[0] {
        lemma_comes_before_transitive(a.skip(1), b.skip(1), c.skip(1));
    }
}

/// Two different byte strings stand in some order.
pub proof fn lemma_comes_before_total(a: Seq<u8>, b: Seq<u8>)
    ensures
        comes_before(a, b) || comes_before(b, a) || a == b,
        !(comes_before(a, b) && comes_before(b, a)),
    decreases a.len(),
{
    if a.len() > 0 && b.len() > 0 {
        if a[0] == b[0] {
            lemma_comes_before_total(a.skip(1), b.skip(1));
            if a.skip(1) == b.skip(1) {
                assert forall|i: int| 0 <= i < a.len() implies a[i] == b[i] by {
                    if i > 0 {
                        assert(a[i] == a.skip(1)[i - 1]);
                        assert(b[i] == b.skip(1)[i - 1]);
                    }
                }
                assert(a.len() == a.skip(1).len() + 1);
                assert(b.len() == b.skip(1).len() + 1);
                assert(a =~= b);
            }
        }
    } else if a.len() == 0 && b.len() == 0 {
        assert(a =~= b);
    }
}

/// A directory inserted into a list in which later names come first.
pub open spec fn inserted(names: Seq<Seq<u8>>, name: Seq<u8>) -> Seq<Seq<u8>>
    decreases names.len(),
{
    if names.len() == 0 {
        seq![name]
    } else if comes_before(names.last(), name) {
        inserted(names.drop_last(), name).push(names.last())
    } else {
        names.push(name)
    }
}

/// Those of the first `count` names that start with `llvm-`, with later names first.
pub open spec fn llvm_names(names: Seq<&[u8]>, count: int) -> Seq<Seq<u8>>
    decreases count,
{
    if count <= 0 {
        Seq::empty()
    } else {
        let before = llvm_names(names, count - 1);
        let name = names[count - 1]@;
        if llvm_prefix().is_prefix_of(name) {
            inserted(before, name)
        } else {
            before
        }
    }
}

/// Whether later names come first.
pub open spec fn is_descending(names: Seq<Seq<u8>>) -> bool {
    forall|i: int, j: int|
        0 <= i < j < names.len() ==> !comes_before(#[trigger] names[i], #[trigger] names[j])
}

proof fn lemma_inserted(names: Seq<Seq<u8>>, name: Seq<u8>)
    requires
        is_descending(names),
    ensures
        is_descending(inserted(names, name)),
        inserted(names, name).to_multiset() == names.to_multiset().insert(name),
        forall|i: int|
            0 <= i < inserted(names, name).len() ==> #[trigger] inserted(names, name)[i] == name
                || names.contains(inserted(names, name)[i]),
    decreases names.len(),
{
    broadcast use vstd::seq_lib::group_to_multiset_ensures;

    let result = inserted(names, name);
    if names.len() == 0 {
        assert(names =~= Seq::<Seq<u8>>::empty());
        assert(result =~= names.push(name));
    } else if comes_before(names.last(), name) {
        let front = names.drop_last();
        assert(is_descending(front)) by {
            assert forall|i: int, j: int| 0 <= i < j < front.len() implies !comes_before(
                #[trigger] front[i],
                #[trigger] front[j],
            ) by {
                assert(front[i] == names[i] && front[j] == names[j]);
            }
        }
        lemma_inserted(front, name);
        let shorter = inserted(front, name);
        assert(names =~= front.push(names.last()));
        assert(result.to_multiset() =~= names.to_multiset().insert(name));
        assert forall|i: int| 0 <= i < result.len() implies #[trigger] result[i] == name
            || names.contains(result[i]) by {
            if i < shorter.len() {
                assert(result[i] == shorter[i]);
                if shorter[i] != name {
                    let k = choose|k: int| 0 <= k < front.len() && front[k] == shorter[i];
                    assert(names[k] == result[i]);
                }
            } else {
                assert(names[names.len() - 1] == result[i]);
            }
        }
        assert forall|i: int, j: int| 0 <= i < j < result.len() implies !comes_before(
            #[trigger] result[i],
            #[trigger] result[j],
        ) by {
            if j < shorter.len() {
                assert(result[i] == shorter[i] && result[j] == shorter[j]);
            } else {
                assert(result[i] == shorter[i]);
                if shorter[i] == name {
                    lemma_comes_before_total(name, names.last());
                } else {
                    let k = choose|k: int| 0 <= k < front.len() && front[k] == shorter[i];
                    assert(names[k] == shorter[i]);
                    assert(names[names.len() - 1] == result[j]);
                }
            }
        }
    } else {
        assert forall|i: int| 0 <= i < result.len() implies #[trigger] result[i] == name
            || names.contains(result[i]) by {
            if i < names.len() {
                assert(names[i] == result[i]);
            }
        }
        assert forall|i: int, j: int| 0 <= i < j < result.len() implies !comes_before(
            #[trigger] result[i],
            #[trigger] result[j],
        ) by {
            if j == names.len() {
                let last = names.last();
                if comes_before(names[i], name) {
                    lemma_comes_before_total(last, name);
                    if last == name {
                        assert(names[names.len() - 1] == last);
                        if i < names.len() - 1 {
                            assert(!comes_before(names[i], names[names.len() - 1]));
                        }
                    } else {
                        lemma_comes_before_transitive(names[i], name, last);
                        if i < names.len() - 1 {
                            assert(!comes_before(names[i], names[names.len() - 1]));
                        }
                    }
                }
            }
        }
    }
}

/// Versions of LLVM are tried from the last name to the first.
pub proof fn lemma_llvm_names_descend(names: Seq<&[u8]>, count: int)
    requires
        0 <= count <= names.len(),
    ensures
        is_descending(llvm_names(names, count)),
    decreases count,
{
    if count > 0 {
        lemma_llvm_names_descend(names, count - 1);
        lemma_inserted(llvm_names(names, count - 1), names[count - 1]@);
    }
}

/// The contents of each of several byte strings.
pub open spec fn contents(names: Seq<&[u8]>) -> Seq<Seq<u8>> {
    Seq::new(names.len(), |i: int| names[i]@)
}

proof fn lemma_insert_position(names: Seq<Seq<u8>>, name: Seq<u8>, position: int)
    requires
        0 <= position <= names.len(),
        forall|i: int| position <= i < names.len() ==> comes_before(#[trigger] names[i], name),
        position > 0 ==> !comes_before(names[position - 1], name),
    ensures
        inserted(names, name) == names.insert(position, name),
    decreases names.len(),
{
    if position < names.len() {
        assert(comes_before(names[names.len() - 1], name));
        let front = names.drop_last();
        assert forall|i: int| position <= i < front.len() implies comes_before(
            #[trigger] front[i],
            name,
        ) by {
            assert(front[i] == names[i]);
        }
        lemma_insert_position(front, name, position);
        assert(inserted(names, name) =~= names.insert(position, name));
    } else {
        assert(inserted(names, name) =~= names.insert(position, name));
    }
}

/// Those names of directories that start with `llvm-`, with later names first.
pub fn llvm_directories<'data>(names: &Vec<&'data [u8]>) -> (found: Vec<&'data [u8]>)
    ensures
        contents(found@) == llvm_names(names@, names@.len() as int),
{
    let prefix: [u8; 5] = [0x6c, 0x6c, 0x76, 0x6d, 0x2d];
    assert(prefix@ =~= llvm_prefix());
    let mut found: Vec<&'data [u8]> = Vec::new();
    assert(contents(found@) =~= llvm_names(names@, 0));
    let mut i: usize = 0;
    while i < names.len()
        invariant
            i <= names@.len(),
            prefix@ == llvm_prefix(),
            contents(found@) == llvm_names(names@, i as int),
        decreases names@.len() - i,
    {
        let name: &'data [u8] = names[i];
        if bytes_start_with(name, prefix.as_slice()) {
            assert(llvm_prefix().is_prefix_of(name@)) by {
                assert(name@.take(5) == llvm_prefix());
                assert(name@.subrange(0, 5) =~= name@.take(5));
            }
            let mut position: usize = found.len();
            while position > 0 && bytes_come_before(found[position - 1], name)
                invariant
                    position <= found@.len(),
                    forall|k: int|
                        position <= k < found@.len() ==> comes_before(
                            (#[trigger] found@[k])@,
                            name@,
                        ),
                decreases position,
            {
                position = position - 1;
            }
            proof {
                let before = contents(found@);
                assert forall|k: int| position <= k < before.len() implies comes_before(
                    #[trigger] before[k],
                    name@,
                ) by {
                    assert(before[k] == found@[k]@);
                }
                lemma_insert_position(before, name@, position as int);
                assert(contents(found@.insert(position as int, name)) =~= before.insert(
                    position as int,
                    name@,
                ));
            }
            found.insert(position, name);
        } else {
            assert(!llvm_prefix().is_prefix_of(name@)) by {
                if llvm_prefix().is_prefix_of(name@) {
                    assert(name@.subrange(0, 5) =~= name@.take(5));
                }
            }
        }
        i = i + 1;
    }
    found
}

/// The places where the plugin of LLVM may be: next to the Rust compiler, next to LLVM's libraries,
/// and in the directories of `/usr/lib` for versions of LLVM.
pub open spec fn candidates_of(
    sysroot: Option<Seq<u8>>,
    libdir: Option<Seq<u8>>,
    directories: Seq<Seq<u8>>,
) -> Seq<Seq<u8>> {
    let first = match sysroot {
        Some(sysroot) => seq![joined(sysroot, lib_plugin())],
        None => Seq::empty(),
    };
    let second = match libdir {
        Some(libdir) => seq![joined(libdir, gold_plugin())],
        None => Seq::empty(),
    };
    first + second + Seq::new(
        directories.len(),
        |i: int| joined(usr_lib() + directories[i], lib_plugin()),
    )
}

/// The contents of an optional byte string.
pub open spec fn optional(bytes: Option<&[u8]>) -> Option<Seq<u8>> {
    match bytes {
        Some(bytes) => Some(bytes@),
        None => None,
    }
}

/// The places where the plugin of LLVM may be, in the order in which they are tried. `names` are
/// those of the directories in `/usr/lib`.
pub fn llvm_candidates<'data>(
    sysroot: Option<&[u8]>,
    libdir: Option<&[u8]>,
    names: &Vec<&'data [u8]>,
) -> (paths: Vec<Vec<u8>>)
    ensures
        crate::bytes::all_bytes(paths@) == candidates_of(
            optional(sysroot),
            optional(libdir),
            llvm_names(names@, names@.len() as int),
        ),
{
    let lib_plugin_name: [u8; 15] = [
        0x6c,
        0x69,
        0x62,
        0x2f,
        0x4c,
        0x4c,
        0x56,
        0x4d,
        0x67,
        0x6f,
        0x6c,
        0x64,
        0x2e,
        0x73,
        0x6f,
    ];
    let gold_plugin_name: [u8; 11] = [
        0x4c,
        0x4c,
        0x56,
        0x4d,
        0x67,
        0x6f,
        0x6c,
        0x64,
        0x2e,
        0x73,
        0x6f,
    ];
    let usr_lib_name: [u8; 9] = [0x2f, 0x75, 0x73, 0x72, 0x2f, 0x6c, 0x69, 0x62, 0x2f];
    assert(lib_plugin_name@ =~= lib_plugin());
    assert(gold_plugin_name@ =~= gold_plugin());
    assert(usr_lib_name@ =~= usr_lib());
    let mut paths: Vec<Vec<u8>> = Vec::new();
    if let Some(sysroot) = sysroot {
        paths.push(join_path(sysroot, lib_plugin_name.as_slice()));
    }
    if let Some(libdir) = libdir {
        paths.push(join_path(libdir, gold_plugin_name.as_slice()));
    }
    let directories: Vec<&'data [u8]> = llvm_directories(names);
    let ghost found = llvm_names(names@, names@.len() as int);
    let ghost expected = candidates_of(optional(sysroot), optional(libdir), found);
    let ghost first = paths@.len();
    assert(crate::bytes::all_bytes(paths@) =~= expected.take(first as int));
    let mut i: usize = 0;
    while i < directories.len()
        invariant
            i <= directories@.len(),
            contents(directories@) == found,
            found == llvm_names(names@, names@.len() as int),
            expected == candidates_of(optional(sysroot), optional(libdir), found),
            expected.len() == first + found.len(),
            forall|k: int|
                0 <= k < found.len() ==> #[trigger] expected[first + k] == joined(
                    usr_lib() + found[k],
                    lib_plugin(),
                ),
            lib_plugin_name@ == lib_plugin(),
            usr_lib_name@ == usr_lib(),
            paths@.len() == first + i,
            crate::bytes::all_bytes(paths@) == expected.take(first + i),
        decreases directories@.len() - i,
    {
        let mut directory: Vec<u8> = copy_bytes(usr_lib_name.as_slice());
        append_bytes(&mut directory, directories[i]);
        assert(found[i as int] == directories@[i as int]@);
        let ghost so_far = paths@;
        paths.push(join_path(directory.as_slice(), lib_plugin_name.as_slice()));
        assert(expected[first + i] == joined(usr_lib() + found[i as int], lib_plugin()));
        assert(crate::bytes::all_bytes(paths@) =~= crate::bytes::all_bytes(so_far).push(
            expected[first + i],
        ));
        assert(expected.take(first + i).push(expected[first + i]) =~= expected.take(first + i + 1));
        i = i + 1;
    }
    assert(expected.take(expected.len() as int) =~= expected);
    paths
}

/// The decimal digits of a number.
pub open spec fn decimal(value: nat) -> Seq<u8>
    decreases value,
{
    if value < 10 {
        seq![(0x30 + value) as u8]
    } else {
        decimal(value / 10).push((0x30 + value % 10) as u8)
    }
}

/// The decimal digits of a number.
pub fn decimal_digits(value: u32) -> (digits: Vec<u8>)
    ensures
        digits@ == decimal(value as nat),
    decreases value,
{
    if value < 10 {
        let mut digits: Vec<u8> = Vec::new();
        digits.push(0x30 + value as u8);
        assert(digits@ =~= decimal(value as nat));
        digits
    } else {
        let mut digits: Vec<u8> = decimal_digits(value / 10);
        digits.push(0x30 + (value % 10) as u8);
        digits
    }
}

/// Whether a byte string stands somewhere in another.
pub open spec fn holds(text: Seq<u8>, part: Seq<u8>) -> bool {
    exists|i: int|
        0 <= i && i + part.len() <= text.len() && #[trigger] text.subrange(i, i + part.len())
            == part
}

/// Whether a byte string stands somewhere in another.
pub fn bytes_hold(text: &[u8], part: &[u8]) -> (found: bool)
    ensures
        found == holds(text@, part@),
{
    let length: usize = text.len();
    if part.len() > length {
        return false;
    }
    let last: usize = length - part.len();
    let mut i: usize = 0;
    while i <= last
        invariant
            length == text@.len(),
            last + part@.len() == length,
            i <= last + 1,
            forall|k: int| 0 <= k < i ==> #[trigger] text@.subrange(k, k + part@.len()) != part@,
        decreases last + 1 - i,
    {
        let rest: &[u8] = slice_subrange(text, i, length);
        assert(rest@.take(part@.len() as int) =~= text@.subrange(i as int, i + part@.len()));
        if bytes_start_with(rest, part) {
            assert(text@.subrange(i as int, i + part@.len()) == part@);
            return true;
        }
        if i == last {
            assert forall|k: int| 0 <= k && k + part@.len() <= text@.len() implies
                #[trigger] text@.subrange(k, k + part@.len()) != part@ by {
            }
            return false;
        }
        i = i + 1;
    }
    false
}

/// What a candidate for a version of LLVM holds in its path.
pub open spec fn version_mark(version: u32) -> Seq<u8> {
    llvm_prefix() + decimal(version as nat)
}

/// Whether a path is that of a file for the given version of LLVM.
pub open spec fn matches_version(path: Seq<u8>, is_file: bool, version: Option<u32>) -> bool {
    is_file && (version matches Some(version) && holds(path, version_mark(version)))
}

/// The first candidate for which a condition holds.
pub open spec fn is_first(chosen: Option<usize>, count: nat, good: spec_fn(int) -> bool) -> bool {
    match chosen {
        Some(index) => index < count && good(index as int) && forall|k: int|
            0 <= k < index ==> !(#[trigger] good(k)),
        None => forall|k: int| 0 <= k < count ==> !(#[trigger] good(k)),
    }
}

/// Whether a candidate is a file for the given version of LLVM.
pub open spec fn good_version(paths: Seq<Vec<u8>>, files: Seq<bool>, version: Option<u32>) -> spec_fn(int) -> bool {
    |k: int| matches_version(paths[k]@, files[k], version)
}

/// Whether a candidate is a file.
pub open spec fn good_file(files: Seq<bool>) -> spec_fn(int) -> bool {
    |k: int| files[k]
}

fn first_of_version(paths: &Vec<Vec<u8>>, files: &Vec<bool>, version: u32) -> (chosen: Option<
    usize,
>)
    requires
        paths@.len() == files@.len(),
    ensures
        is_first(chosen, paths@.len(), good_version(paths@, files@, Some(version))),
{
    let mut mark: Vec<u8> = Vec::new();
    mark.push(0x6c);
    mark.push(0x6c);
    mark.push(0x76);
    mark.push(0x6d);
    mark.push(0x2d);
    assert(mark@ =~= llvm_prefix());
    let digits: Vec<u8> = decimal_digits(version);
    append_bytes(&mut mark, digits.as_slice());
    let ghost good = good_version(paths@, files@, Some(version));
    let mut i: usize = 0;
    while i < paths.len()
        invariant
            i <= paths@.len(),
            paths@.len() == files@.len(),
            mark@ == version_mark(version),
            good == good_version(paths@, files@, Some(version)),
            forall|k: int| 0 <= k < i ==> !(#[trigger] good(k)),
        decreases paths@.len() - i,
    {
        if files[i] && bytes_hold(paths[i].as_slice(), mark.as_slice()) {
            assert(good(i as int));
            return Some(i);
        }
        assert(!good(i as int));
        i = i + 1;
    }
    None
}

fn first_file(files: &Vec<bool>) -> (chosen: Option<usize>)
    ensures
        is_first(chosen, files@.len(), good_file(files@)),
{
    let ghost good = good_file(files@);
    let mut i: usize = 0;
    while i < files.len()
        invariant
            i <= files@.len(),
            good == good_file(files@),
            forall|k: int| 0 <= k < i ==> !(#[trigger] good(k)),
        decreases files@.len() - i,
    {
        if files[i] {
            assert(good(i as int));
            return Some(i);
        }
        assert(!good(i as int));
        i = i + 1;
    }
    None
}

/// The plugin of LLVM that is used: the first file for the version of LLVM that the Rust compiler
/// uses, or the first file if there is none. `files` says which candidates are files.
pub fn discover_llvm_gold_plugin(
    paths: &Vec<Vec<u8>>,
    files: &Vec<bool>,
    version: Option<u32>,
) -> (chosen: Option<usize>)
    requires
        paths@.len() == files@.len(),
    ensures
        is_first(chosen, paths@.len(), good_version(paths@, files@, version)) && chosen is Some || (
        is_first(None, paths@.len(), good_version(paths@, files@, version)) && is_first(
            chosen,
            paths@.len(),
            good_file(files@),
        )),
{
    let ghost good = good_version(paths@, files@, version);
    if let Some(version) = version {
        let chosen: Option<usize> = first_of_version(paths, files, version);
        if chosen.is_some() {
            return chosen;
        }
    } else {
        assert(forall|k: int| !(#[trigger] good(k)));
    }
    first_file(files)
}

/// The plugin of GCC that is used: the first file that a compiler names. `files` says which of the
/// named paths are files.
pub fn discover_gcc_lto_plugin(files: &Vec<bool>) -> (chosen: Option<usize>)
    ensures
        is_first(chosen, files@.len(), good_file(files@)),
{
    first_file(files)
}

/// The value of decimal digits.
pub open spec fn digits_value(digits: Seq<u8>) -> int
    decreases digits.len(),
{
    if digits.len() == 0 {
        0
    } else {
        digits_value(digits.drop_last()) * 10 + (digits.last() - 0x30)
    }
}

pub open spec fn all_digits(text: Seq<u8>) -> bool {
    forall|i: int| 0 <= i < text.len() ==> 0x30 <= #[trigger] text[i] <= 0x39
}

/// The digits of a number without its sign.
pub open spec fn unsigned_digits(text: Seq<u8>) -> Seq<u8> {
    if text.len() > 0 && text[0] == 0x2b {
        text.skip(1)
    } else {
        text
    }
}

/// The number that a text stands for: digits, after a plus sign if there is one.
pub open spec fn number_in(text: Seq<u8>) -> Option<u32> {
    let digits = unsigned_digits(text);
    if digits.len() > 0 && all_digits(digits) && digits_value(digits) <= u32::MAX {
        Some(digits_value(digits) as u32)
    } else {
        None
    }
}

proof fn lemma_digits_grow(digits: Seq<u8>, count: int)
    requires
        0 <= count <= digits.len(),
        all_digits(digits),
    ensures
        0 <= digits_value(digits.take(count)) <= digits_value(digits),
    decreases digits.len(),
{
    if count == digits.len() {
        assert(digits.take(count) =~= digits);
        if digits.len() > 0 {
            let front = digits.drop_last();
            assert forall|i: int| 0 <= i < front.len() implies 0x30 <= #[trigger] front[i]
                <= 0x39 by {
                assert(front[i] == digits[i]);
            }
            lemma_digits_grow(front, front.len() as int);
            assert(front.take(front.len() as int) =~= front);
            assert(0x30 <= digits[digits.len() - 1]);
        }
    } else {
        let front = digits.drop_last();
        assert forall|i: int| 0 <= i < front.len() implies 0x30 <= #[trigger] front[i] <= 0x39 by {
            assert(front[i] == digits[i]);
        }
        lemma_digits_grow(front, count);
        assert(front.take(count) =~= digits.take(count));
        assert(0x30 <= digits[digits.len() - 1]);
    }
}

/// The number that a text stands for.
pub fn parse_number(text: &[u8]) -> (number: Option<u32>)
    ensures
        number == number_in(text@),
{
    let length: usize = text.len();
    let start: usize = if length > 0 && text[0] == 0x2b {
        1
    } else {
        0
    };
    let ghost digits = unsigned_digits(text@);
    assert(digits =~= text@.skip(start as int));
    if start == length {
        return None;
    }
    let mut value: u32 = 0;
    let mut i: usize = start;
    assert(digits.take(0) =~= Seq::<u8>::empty());
    while i < length
        invariant
            length == text@.len(),
            start <= i <= length,
            start < length,
            digits == unsigned_digits(text@),
            digits == text@.skip(start as int),
            all_digits(digits.take(i - start)),
            value == digits_value(digits.take(i - start)),
        decreases length - i,
    {
        let digit: u8 = text[i];
        let ghost done = i - start;
        assert(digits[done] == digit);
        if digit < 0x30 || digit > 0x39 {
            assert(!all_digits(digits));
            return None;
        }
        let ghost longer = digits.take(done + 1);
        assert(longer.drop_last() =~= digits.take(done));
        assert(longer.last() == digit);
        assert(all_digits(longer)) by {
            assert forall|k: int| 0 <= k < longer.len() implies 0x30 <= #[trigger] longer[k]
                <= 0x39 by {
                if k < done {
                    assert(longer[k] == digits.take(done)[k]);
                }
            }
        }
        let next: u64 = value as u64 * 10 + (digit - 0x30) as u64;
        if next > 0xffff_ffff {
            proof {
                if all_digits(digits) {
                    lemma_digits_grow(digits, done + 1);
                }
            }
            return None;
        }
        value = next as u32;
        i = i + 1;
    }
    assert(digits.take(digits.len() as int) =~= digits);
    Some(value)
}

/// `LLVM version: `.
pub open spec fn version_label() -> Seq<u8> {
    seq![0x4cu8, 0x4c, 0x56, 0x4d, 0x20, 0x76, 0x65, 0x72, 0x73, 0x69, 0x6f, 0x6e, 0x3a, 0x20]
}

/// What stands before the first of the given byte, or everything.
pub open spec fn before_first(text: Seq<u8>, byte: u8) -> Seq<u8>
    decreases text.len(),
{
    if text.len() == 0 || text[0] == byte {
        Seq::empty()
    } else {
        seq![text[0]] + before_first(text.skip(1), byte)
    }
}

/// The number of bytes before the first of the given byte.
fn count_before(text: &[u8], byte: u8) -> (count: usize)
    ensures
        count <= text@.len(),
        text@.take(count as int) == before_first(text@, byte),
        count < text@.len() ==> text@[count as int] == byte,
{
    let mut i: usize = 0;
    assert(text@.skip(0) =~= text@);
    assert(text@.take(0) + before_first(text@.skip(0), byte) =~= before_first(text@, byte));
    while i < text.len() && text[i] != byte
        invariant
            i <= text@.len(),
            text@.take(i as int) + before_first(text@.skip(i as int), byte) == before_first(
                text@,
                byte,
            ),
        decreases text@.len() - i,
    {
        assert(text@.skip(i as int).skip(1) =~= text@.skip(i + 1));
        assert(text@.take(i + 1) =~= text@.take(i as int) + seq![text@[i as int]]);
        assert(text@.take(i + 1) + before_first(text@.skip(i + 1), byte) =~= text@.take(i as int)
            + before_first(text@.skip(i as int), byte));
        i = i + 1;
    }
    assert(before_first(text@.skip(i as int), byte) =~= Seq::<u8>::empty());
    assert(text@.take(i as int) =~= before_first(text@, byte));
    i
}

/// The version of LLVM that a line names: the number before the first full stop.
pub open spec fn line_version(line: Seq<u8>) -> Option<u32> {
    if version_label().is_prefix_of(line) {
        number_in(before_first(line.skip(version_label().len() as int), 0x2e))
    } else {
        None
    }
}

/// A line without the carriage return at its end.
pub open spec fn without_return(line: Seq<u8>) -> Seq<u8> {
    if line.len() > 0 && line.last() == 0x0d {
        line.drop_last()
    } else {
        line
    }
}

/// The version of LLVM that the first line with one names.
pub open spec fn version_in(text: Seq<u8>) -> Option<u32>
    decreases text.len(),
{
    if text.len() == 0 {
        None
    } else {
        let line = before_first(text, 0x0a);
        let found = if line.len() < text.len() {
            line_version(without_return(line))
        } else {
            line_version(line)
        };
        match found {
            Some(version) => Some(version),
            None => if line.len() < text.len() {
                version_in(text.skip(line.len() as int + 1))
            } else {
                None
            },
        }
    }
}

fn version_of_line(line: &[u8]) -> (version: Option<u32>)
    ensures
        version == line_version(line@),
{
    let label: [u8; 14] = [
        0x4c,
        0x4c,
        0x56,
        0x4d,
        0x20,
        0x76,
        0x65,
        0x72,
        0x73,
        0x69,
        0x6f,
        0x6e,
        0x3a,
        0x20,
    ];
    assert(label@ =~= version_label());
    if !bytes_start_with(line, label.as_slice()) {
        assert(!version_label().is_prefix_of(line@)) by {
            if version_label().is_prefix_of(line@) {
                assert(line@.subrange(0, 14) =~= line@.take(14));
            }
        }
        return None;
    }
    assert(version_label().is_prefix_of(line@)) by {
        assert(line@.take(14) == version_label());
        assert(line@.subrange(0, 14) =~= line@.take(14));
    }
    let rest: &[u8] = slice_subrange(line, 14, line.len());
    assert(rest@ =~= line@.skip(14));
    let count: usize = count_before(rest, 0x2e);
    let major: &[u8] = slice_subrange(rest, 0, count);
    assert(major@ =~= rest@.take(count as int));
    parse_number(major)
}

/// The version of LLVM that the Rust compiler uses, from what it says about its version.
pub fn rustc_llvm_version(text: &[u8]) -> (version: Option<u32>)
    ensures
        version == version_in(text@),
{
    let length: usize = text.len();
    let mut start: usize = 0;
    assert(text@.skip(0) =~= text@);
    while start < length
        invariant
            length == text@.len(),
            start <= length,
            version_in(text@) == version_in(text@.skip(start as int)),
        decreases length - start,
    {
        let rest: &[u8] = slice_subrange(text, start, length);
        assert(rest@ =~= text@.skip(start as int));
        let count: usize = count_before(rest, 0x0a);
        let rest_length: usize = rest.len();
        let end: usize = if count < rest_length && count > 0 && rest[count - 1] == 0x0d {
            count - 1
        } else {
            count
        };
        let line: &[u8] = slice_subrange(rest, 0, end);
        assert(line@ =~= if count < rest_length {
            without_return(rest@.take(count as int))
        } else {
            rest@.take(count as int)
        });
        let found: Option<u32> = version_of_line(line);
        if found.is_some() {
            return found;
        }
        if count == rest_length {
            return None;
        }
        assert(rest@.skip(count + 1) =~= text@.skip(start + count + 1));
        start = start + count + 1;
    }
    None
}

} // verus!
