//! Sizes and spans of time as text, printed by the crates `size` and
//! `humantime`.

use vstd::prelude::*;

verus! {

/// The text that the `size` crate prints for a number of bytes.
pub uninterp spec fn size_text(bytes: u64) -> Seq<char>;

/// The text that `humantime` prints for a span of whole milliseconds.
pub uninterp spec fn duration_text(millis: u64) -> Seq<char>;

/// Builds a `size::Size` with `Size::from_bytes` and prints it through its
/// `Display` impl. The crate formats with fixed rules (base-2 units, no
/// locale), so the text depends on `bytes` alone; the contract gives that
/// text its name and claims nothing else about it.
#[verifier::external_body]
pub(crate) fn format_size(bytes: u64) -> (text: String)
    ensures
        text@ == size_text(bytes),
{
    size::Size::from_bytes(bytes).to_string()
}

/// Prints a span of `millis` milliseconds with `humantime::format_duration`.
/// The text is computed from the span alone; the contract gives it its name
/// and claims nothing else about it.
#[verifier::external_body]
pub(crate) fn format_millis(millis: u64) -> (text: String)
    ensures
        text@ == duration_text(millis),
{
    humantime::format_duration(std::time::Duration::from_millis(millis)).to_string()
}

} // verus!
