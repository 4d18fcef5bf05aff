//! What the arguments of a link decide.
use crate::alignment::Alignment;
use crate::bytes::bytes_equal;
use vstd::prelude::*;

verus! {

/// What is done about an option that is not supported.
#[derive(Clone, Copy, Debug, PartialEq, Eq, Structural)]
pub enum UnsupportedOption {
    Warn,
    Ignore,
    Fail,
    /// The environment variable that decides has a value that means nothing.
    UnknownChoice,
}

/// `warn`.
pub open spec fn warn_choice() -> Seq<u8> {
    seq![0x77u8, 0x61, 0x72, 0x6e]
}

/// `ignore`.
pub open spec fn ignore_choice() -> Seq<u8> {
    seq![0x69u8, 0x67, 0x6e, 0x6f, 0x72, 0x65]
}

/// `error`.
pub open spec fn error_choice() -> Seq<u8> {
    seq![0x65u8, 0x72, 0x72, 0x6f, 0x72]
}

/// What is done about an option that is not supported. The value of an environment variable
/// decides; it is empty if the variable is not set.
pub fn warn_unsupported(choice: &[u8]) -> (action: UnsupportedOption)
    ensures
        action == (if choice@.len() == 0 || choice@ == warn_choice() {
            UnsupportedOption::Warn
        } else if choice@ == ignore_choice() {
            UnsupportedOption::Ignore
        } else if choice@ == error_choice() {
            UnsupportedOption::Fail
        } else {
            UnsupportedOption::UnknownChoice
        }),
{
    let warn: [u8; 4] = [0x77, 0x61, 0x72, 0x6e];
    let ignore: [u8; 6] = [0x69, 0x67, 0x6e, 0x6f, 0x72, 0x65];
    let error: [u8; 5] = [0x65, 0x72, 0x72, 0x6f, 0x72];
    assert(warn@ =~= warn_choice());
    assert(ignore@ =~= ignore_choice());
    assert(error@ =~= error_choice());
    if choice.len() == 0 || bytes_equal(choice, warn.as_slice()) {
        UnsupportedOption::Warn
    } else if bytes_equal(choice, ignore.as_slice()) {
        UnsupportedOption::Ignore
    } else if bytes_equal(choice, error.as_slice()) {
        UnsupportedOption::Fail
    } else {
        UnsupportedOption::UnknownChoice
    }
}

/// The size of a common page: 4 KiB, unless segments are aligned to less.
pub fn common_page_size(loadable_segment_alignment: Alignment) -> (size: u64)
    ensures
        size == (if loadable_segment_alignment.bytes() < 0x1000 {
            loadable_segment_alignment.bytes()
        } else {
            0x1000
        }),
{
    let alignment: u64 = loadable_segment_alignment.value();
    if alignment < 0x1000 {
        alignment
    } else {
        0x1000
    }
}

/// Whether the relocations of the input are copied to the output: if the output is an object, or if
/// the user wants them.
pub fn should_copy_input_relocs(output_partial_object: bool, emit_relocs: bool) -> (copy: bool)
    ensures
        copy == (output_partial_object || emit_relocs),
{
    output_partial_object || emit_relocs
}

} // verus!
