//! What holds of the search for plugins.
use crate::plugin_discovery;
use vstd::prelude::*;

verus! {

/// A path in a directory is the directory, one slash, and the rest. No second slash is added.
pub proof fn lemma_paths_are_joined(directory: Seq<u8>, relative: Seq<u8>)
    ensures
        ({
            let path = plugin_discovery::joined(directory, relative);
            let before = path.len() - relative.len();
            &&& path.subrange(before, path.len() as int) == relative
            &&& path.take(directory.len() as int) == directory
            &&& directory.len() > 0 ==> path[before - 1] == 0x2f
            &&& directory.len() == 0 ==> path == relative
            &&& before <= directory.len() + 1
            &&& directory.len() > 0 && directory.last() == 0x2f ==> before == directory.len()
        }),
{
    let path = plugin_discovery::joined(directory, relative);
    let before = path.len() - relative.len();
    assert(path.subrange(before, path.len() as int) =~= relative);
    assert(path.take(directory.len() as int) =~= directory);
}

proof fn lemma_inserted(names: Seq<Seq<u8>>, name: Seq<u8>)
    ensures
        plugin_discovery::inserted(names, name).len() == names.len() + 1,
        plugin_discovery::inserted(names, name).contains(name),
        forall|other: Seq<u8>|
            names.contains(other) ==> #[trigger] plugin_discovery::inserted(names, name).contains(
                other,
            ),
        forall|other: Seq<u8>| #[trigger]
            plugin_discovery::inserted(names, name).contains(other) ==> other == name
                || names.contains(other),
    decreases names.len(),
{
    let after = plugin_discovery::inserted(names, name);
    if names.len() == 0 {
        assert(after[0] == name);
    } else if plugin_discovery::comes_before(names.last(), name) {
        let front = names.drop_last();
        lemma_inserted(front, name);
        let inner = plugin_discovery::inserted(front, name);
        let k = choose|k: int| 0 <= k < inner.len() && inner[k] == name;
        assert(after[k] == name);
        assert forall|other: Seq<u8>| names.contains(other) implies #[trigger] after.contains(
            other,
        ) by {
            let i = choose|i: int| 0 <= i < names.len() && names[i] == other;
            if i < front.len() {
                assert(front[i] == other);
                assert(inner.contains(other));
                let j = choose|j: int| 0 <= j < inner.len() && inner[j] == other;
                assert(after[j] == other);
            } else {
                assert(after[inner.len() as int] == other);
            }
        }
        assert forall|other: Seq<u8>| #[trigger] after.contains(other) implies other == name
            || names.contains(other) by {
            let i = choose|i: int| 0 <= i < after.len() && after[i] == other;
            if i < inner.len() {
                assert(inner[i] == other);
                assert(inner.contains(other));
                if other != name {
                    let j = choose|j: int| 0 <= j < front.len() && front[j] == other;
                    assert(names[j] == other);
                }
            } else {
                assert(names[names.len() - 1] == other);
            }
        }
    } else {
        assert(after[names.len() as int] == name);
        assert forall|other: Seq<u8>| names.contains(other) implies #[trigger] after.contains(
            other,
        ) by {
            let i = choose|i: int| 0 <= i < names.len() && names[i] == other;
            assert(after[i] == other);
        }
        assert forall|other: Seq<u8>| #[trigger] after.contains(other) implies other == name
            || names.contains(other) by {
            let i = choose|i: int| 0 <= i < after.len() && after[i] == other;
            if i < names.len() {
                assert(names[i] == other);
            }
        }
    }
}

/// Whether a name starts with `llvm-`.
pub open spec fn is_llvm_name(name: Seq<u8>) -> bool {
    &&& name.len() >= 5
    &&& name[0] == 0x6c && name[1] == 0x6c && name[2] == 0x76 && name[3] == 0x6d && name[4] == 0x2d
}

proof fn lemma_prefix_of_llvm_names(name: Seq<u8>)
    ensures
        plugin_discovery::llvm_prefix().is_prefix_of(name) <==> is_llvm_name(name),
{
    let prefix = plugin_discovery::llvm_prefix();
    if prefix.is_prefix_of(name) {
        assert forall|i: int| 0 <= i < 5 implies name[i] == #[trigger] prefix[i] by {
            assert(name.subrange(0, 5)[i] == name[i]);
        }
        assert(name[0] == prefix[0] && name[1] == prefix[1] && name[2] == prefix[2] && name[3]
            == prefix[3] && name[4] == prefix[4]);
    }
    if is_llvm_name(name) {
        assert(name.subrange(0, 5) =~= prefix);
    }
}

/// The directories that are searched are those whose names start with `llvm-`, all of them and no
/// others.
pub proof fn lemma_llvm_directories_are_found(names: Seq<&[u8]>, count: int)
    requires
        0 <= count <= names.len(),
    ensures
        forall|i: int|
            0 <= i < count && is_llvm_name((#[trigger] names[i])@) ==> plugin_discovery::llvm_names(
                names,
                count,
            ).contains(names[i]@),
        forall|name: Seq<u8>| #[trigger]
            plugin_discovery::llvm_names(names, count).contains(name) ==> is_llvm_name(name),
    decreases count,
{
    if count > 0 {
        lemma_llvm_directories_are_found(names, count - 1);
        let name = names[count - 1]@;
        lemma_prefix_of_llvm_names(name);
        let before = plugin_discovery::llvm_names(names, count - 1);
        lemma_inserted(before, name);
        let after = plugin_discovery::llvm_names(names, count);
        assert forall|i: int| 0 <= i < count && is_llvm_name((#[trigger] names[i])@) implies after.contains(
            names[i]@,
        ) by {
            if i < count - 1 {
                assert(before.contains(names[i]@));
            }
        }
    }
}

/// What is tried first is next to the Rust compiler, if it says where it is, then what is next to
/// LLVM's libraries, and then what is in each directory.
pub proof fn lemma_candidates_in_order(
    sysroot: Option<Seq<u8>>,
    libdir: Option<Seq<u8>>,
    directories: Seq<Seq<u8>>,
    i: int,
)
    requires
        0 <= i < directories.len(),
    ensures
        ({
            let all = plugin_discovery::candidates_of(sysroot, libdir, directories);
            let first = if sysroot is Some {
                1int
            } else {
                0
            };
            let second = if libdir is Some {
                1int
            } else {
                0
            };
            &&& all.len() == first + second + directories.len()
            &&& sysroot matches Some(root) ==> root.is_prefix_of(all[0])
            &&& libdir matches Some(libraries) ==> libraries.is_prefix_of(all[first])
            &&& (plugin_discovery::usr_lib() + directories[i]).is_prefix_of(all[first + second + i])
        }),
{
    let all = plugin_discovery::candidates_of(sysroot, libdir, directories);
    if sysroot is Some {
        lemma_paths_are_joined(sysroot->0, plugin_discovery::lib_plugin());
    }
    if libdir is Some {
        lemma_paths_are_joined(libdir->0, plugin_discovery::gold_plugin());
    }
    lemma_paths_are_joined(
        plugin_discovery::usr_lib() + directories[i],
        plugin_discovery::lib_plugin(),
    );
}

/// The digits of a number stand for the number.
pub proof fn lemma_digits_stand_for_number(value: nat)
    ensures
        plugin_discovery::all_digits(plugin_discovery::decimal(value)),
        plugin_discovery::decimal(value).len() > 0,
        plugin_discovery::digits_value(plugin_discovery::decimal(value)) == value,
    decreases value,
{
    reveal_with_fuel(plugin_discovery::digits_value, 2);
    let digits = plugin_discovery::decimal(value);
    if value >= 10 {
        lemma_digits_stand_for_number(value / 10);
        let front = plugin_discovery::decimal(value / 10);
        assert(digits.drop_last() =~= front);
        assert forall|i: int| 0 <= i < digits.len() implies 0x30 <= #[trigger] digits[i] <= 0x39 by {
            if i < front.len() {
                assert(digits[i] == front[i]);
            }
        }
    } else {
        assert(digits.drop_last() =~= Seq::<u8>::empty());
    }
}

/// A 32-bit number is read back from its digits, with or without a plus sign.
pub proof fn lemma_numbers_are_read_back(value: u32)
    ensures
        plugin_discovery::number_in(plugin_discovery::decimal(value as nat)) == Some(value),
        plugin_discovery::number_in(seq![0x2bu8] + plugin_discovery::decimal(value as nat)) == Some(
            value,
        ),
{
    lemma_digits_stand_for_number(value as nat);
    let digits = plugin_discovery::decimal(value as nat);
    assert(0x30 <= digits[0]);
    assert((seq![0x2bu8] + digits).skip(1) =~= digits);
}

/// What stands before the first of a byte is a beginning of the text without that byte, and is
/// followed by the byte or nothing.
pub proof fn lemma_text_before_byte(text: Seq<u8>, byte: u8)
    ensures
        ({
            let before = plugin_discovery::before_first(text, byte);
            &&& before.len() <= text.len()
            &&& before == text.take(before.len() as int)
            &&& forall|i: int| 0 <= i < before.len() ==> #[trigger] before[i] != byte
            &&& before.len() < text.len() ==> text[before.len() as int] == byte
        }),
    decreases text.len(),
{
    let before = plugin_discovery::before_first(text, byte);
    if text.len() > 0 && text[0] != byte {
        lemma_text_before_byte(text.skip(1), byte);
        let rest = plugin_discovery::before_first(text.skip(1), byte);
        assert forall|i: int| 0 <= i < before.len() implies #[trigger] before[i] == text[i]
            && before[i] != byte by {
            if i > 0 {
                assert(before[i] == rest[i - 1]);
                assert(rest[i - 1] == text.skip(1).take(rest.len() as int)[i - 1]);
            }
        }
        assert(before =~= text.take(before.len() as int));
    } else {
        assert(before =~= text.take(0));
    }
}

proof fn lemma_before_first_of(front: Seq<u8>, rest: Seq<u8>, byte: u8)
    requires
        forall|i: int| 0 <= i < front.len() ==> #[trigger] front[i] != byte,
        rest.len() == 0 || rest[0] == byte,
    ensures
        plugin_discovery::before_first(front + rest, byte) == front,
    decreases front.len(),
{
    let text = front + rest;
    if front.len() > 0 {
        assert(text[0] == front[0]);
        assert(text.skip(1) =~= front.skip(1) + rest);
        lemma_before_first_of(front.skip(1), rest, byte);
        assert(seq![front[0]] + front.skip(1) =~= front);
    }
}

/// The version of LLVM is the number that follows `LLVM version: `, up to the first full stop.
pub proof fn lemma_version_is_read(version: u32, rest: Seq<u8>)
    ensures
        plugin_discovery::line_version(
            plugin_discovery::version_label() + plugin_discovery::decimal(version as nat),
        ) == Some(version),
        plugin_discovery::line_version(
            plugin_discovery::version_label() + plugin_discovery::decimal(version as nat) + seq![
                0x2eu8,
            ] + rest,
        ) == Some(version),
{
    let label = plugin_discovery::version_label();
    let digits = plugin_discovery::decimal(version as nat);
    lemma_digits_stand_for_number(version as nat);
    lemma_numbers_are_read_back(version);
    let none = Seq::<u8>::empty();
    assert forall|i: int| 0 <= i < digits.len() implies #[trigger] digits[i] != 0x2e by {}
    lemma_before_first_of(digits, none, 0x2e);
    lemma_before_first_of(digits, seq![0x2eu8] + rest, 0x2e);
    assert((label + digits).skip(label.len() as int) =~= digits + none);
    let line = label + digits + seq![0x2eu8] + rest;
    assert(line.skip(label.len() as int) =~= digits + (seq![0x2eu8] + rest));
    assert((label + digits).subrange(0, label.len() as int) =~= label);
    assert(line.subrange(0, label.len() as int) =~= label);
}

/// The first line that names a version counts. Lines before it that name none are passed over.
pub proof fn lemma_first_version_counts(line: Seq<u8>, rest: Seq<u8>)
    requires
        forall|i: int| 0 <= i < line.len() ==> #[trigger] line[i] != 0x0a,
    ensures
        plugin_discovery::version_in(line + seq![0x0au8] + rest) == (
        match plugin_discovery::line_version(plugin_discovery::without_return(line)) {
            Some(version) => Some(version),
            None => plugin_discovery::version_in(rest),
        }),
{
    let text = line + seq![0x0au8] + rest;
    assert(text =~= line + (seq![0x0au8] + rest));
    lemma_before_first_of(line, seq![0x0au8] + rest, 0x0a);
    assert(text.skip(line.len() as int + 1) =~= rest);
}

} // verus!
