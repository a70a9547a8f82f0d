//! How errors are reported that end nothing.
use vstd::prelude::*;

verus! {

/// The line that reports an error with the text `err`.
pub open spec fn small_error_line(err: Seq<char>) -> Seq<char> {
    "##SmallError. Error: "@ + err
}

/// The line that reports an error with the text `err`.
pub fn small_error_text(err: &str) -> (r: String)
    ensures
        r@ == small_error_line(err@),
{
    "##SmallError. Error: ".to_owned().concat(err)
}

} // verus!
