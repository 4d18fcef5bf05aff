//! Patterns with wildcards.
use vstd::prelude::*;
use vstd::utf8::*;

verus! {

/// Whether `glob::Pattern::new` accepts a pattern. What separates the components of a path, around
/// which `**` may stand, is `/` on all targets, and on Windows `\` too.
pub uninterp spec fn glob_is_valid(pattern: Seq<char>) -> bool;

/// Whether `glob::Pattern::matches` says that a text matches a pattern. The components that `**`
/// matches end where the target says that components of a path end.
pub uninterp spec fn glob_matches(pattern: Seq<char>, text: Seq<char>) -> bool;

/// Calls `std::str::from_utf8`, which returns the text that the bytes encode, or an error if they
/// are not valid UTF-8.
#[verifier::external_body]
fn std_from_utf8(bytes: &[u8]) -> (text: Option<&str>)
    ensures
        text is Some <==> valid_utf8(bytes@),
        text matches Some(text) ==> text@ == decode_utf8(bytes@),
{
    std::str::from_utf8(bytes).ok()
}

/// Calls `glob::Pattern::new`, which compiles a pattern or rejects it.
#[verifier::external_body]
fn glob_new(pattern: &str) -> (accepted: bool)
    ensures
        accepted == glob_is_valid(pattern@),
{
    glob::Pattern::new(pattern).is_ok()
}

/// Calls `glob::Pattern::matches` on the pattern that `glob::Pattern::new` compiles. Patterns that
/// are rejected match nothing.
#[verifier::external_body]
fn glob_pattern_matches(pattern: &str, text: &str) -> (matched: bool)
    ensures
        matched == (glob_is_valid(pattern@) && glob_matches(pattern@, text@)),
{
    match glob::Pattern::new(pattern) {
        Ok(pattern) => pattern.matches(text),
        Err(_) => false,
    }
}

/// Whether bytes are a pattern.
pub open spec fn is_pattern(pattern: Seq<u8>) -> bool {
    valid_utf8(pattern) && glob_is_valid(decode_utf8(pattern))
}

/// Whether bytes match a pattern. Bytes that are not text match nothing.
pub open spec fn pattern_matches(pattern: Seq<u8>, text: Seq<u8>) -> bool {
    is_pattern(pattern) && valid_utf8(text) && glob_matches(
        decode_utf8(pattern),
        decode_utf8(text),
    )
}

/// Whether bytes are a pattern.
pub fn check_pattern(pattern: &[u8]) -> (valid: bool)
    ensures
        valid == is_pattern(pattern@),
{
    match std_from_utf8(pattern) {
        Some(pattern) => glob_new(pattern),
        None => false,
    }
}

/// Whether bytes match a pattern.
pub fn match_pattern(pattern: &[u8], text: &[u8]) -> (matched: bool)
    ensures
        matched == pattern_matches(pattern@, text@),
{
    match (std_from_utf8(pattern), std_from_utf8(text)) {
        (Some(pattern), Some(text)) => glob_pattern_matches(pattern, text),
        _ => false,
    }
}

} // verus!
