//! Random texts and messages.
use crate::message::Message;
use crate::username::Username;
use vstd::prelude::*;

verus! {

/// Calls `rand::distr::SampleString::sample_string` of `rand::distr::StandardUniform` with the
/// generator of the thread. The string holds as many chars as were asked for; which chars is left
/// to chance. Four bytes per char are reserved first, which must not be more than a string can
/// hold. That the system can seed the generator is taken for granted.
#[verifier::external_body]
fn sample_string(char_length: usize) -> (r: String)
    requires
        4 * char_length <= isize::MAX,
    ensures
        r@.len() == char_length,
{
    rand::distr::SampleString::sample_string(
        &rand::distr::StandardUniform,
        &mut rand::rng(),
        char_length,
    )
}

/// Calls `rand::random_range` on the numbers below `end`. The number is one of them; which one is
/// left to chance. That the system can seed the generator is taken for granted.
#[verifier::external_body]
fn random_below(end: usize) -> (r: usize)
    requires
        end > 0,
    ensures
        r < end,
{
    rand::random_range(0..end)
}

/// A random text of that many chars.
pub fn craft_random_text_of_len(char_length: usize) -> (r: String)
    requires
        4 * char_length <= isize::MAX,
    ensures
        r@.len() == char_length,
{
    sample_string(char_length)
}

/// The end of the lengths that a random text can have: a string can hold fewer chars of any kind
/// than these, and no more.
pub fn random_len_end() -> (end: usize)
    ensures
        0 < end,
        4 * (end - 1) <= isize::MAX < 4 * end,
{
    isize::MAX as usize / 4 + 1
}

/// A random text of random length, below `random_len_end`.
pub fn craft_random_text() -> (r: String)
    ensures
        4 * r@.len() <= isize::MAX,
{
    let random_len: usize = random_below(random_len_end());
    craft_random_text_of_len(random_len)
}

/// A message of the user with a random content of random length, shorter than the longest.
pub fn craft_random_msg(username: &Username) -> (r: Message)
    ensures
        r@.username == username@,
        r@.content.len() < Message::MAX_CONTENT_LEN,
{
    let random_msg_len: usize = random_below(Message::MAX_CONTENT_LEN);
    let valid_text = craft_random_text_of_len(random_msg_len);
    Message::new(username, valid_text.as_str()).unwrap()
}

} // verus!
