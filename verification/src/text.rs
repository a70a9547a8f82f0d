//! Facts about UTF-8 text, and the operations on it that std performs.
use vstd::prelude::*;
use vstd::utf8::{encode_scalar, encode_utf8, valid_utf8, decode_utf8};

verus! {

/// The bytes of a concatenation are the concatenation of the bytes.
pub proof fn lemma_encode_utf8_concat(a: Seq<char>, b: Seq<char>)
    ensures
        encode_utf8(a + b) == encode_utf8(a) + encode_utf8(b),
    decreases a.len(),
{
    if a.len() == 0 {
        assert(a + b =~= b);
    } else {
        assert((a + b).drop_first() =~= a.drop_first() + b);
        lemma_encode_utf8_concat(a.drop_first(), b);
    }
}

/// The bytes of a one-char text are the encoding of that char.
pub proof fn lemma_encode_utf8_single(c: char)
    ensures
        encode_utf8(seq![c]) == encode_scalar(c as u32),
{
    let s = seq![c];
    assert(s.drop_first() =~= Seq::<char>::empty());
    assert(encode_utf8(s.drop_first()) =~= Seq::<u8>::empty());
    assert(encode_utf8(s) =~= encode_scalar(c as u32));
}

/// No byte of an encoded char is `0xC0` or `0xC1`: one-byte encodings stay below `0x80`,
/// continuation bytes below `0xC0`, and a two-byte encoding starts at `0xC2`.
proof fn lemma_scalar_bytes(c: u32)
    requires
        vstd::utf8::is_scalar(c),
    ensures
        forall|i: int|
            0 <= i < encode_scalar(c).len() ==> encode_scalar(c)[i] != 0xC0 && encode_scalar(c)[i]
                != 0xC1,
{
    if c <= 0x7F {
        assert((c & 0x7F) as u8 <= 0x7F) by (bit_vector);
    } else {
        assert(0x80 | (c & 0x3F) as u8 <= 0xBF) by (bit_vector);
        assert(0x80 | ((c >> 6) & 0x3F) as u8 <= 0xBF) by (bit_vector);
        assert(0x80 | ((c >> 12) & 0x3F) as u8 <= 0xBF) by (bit_vector);
        assert(0x80 <= c <= 0x7FF ==> 0xC0u8 | ((c >> 6) & 0x1F) as u8 >= 0xC2) by (bit_vector);
        assert(0xE0u8 | ((c >> 12) & 0x0F) as u8 >= 0xE0) by (bit_vector);
        assert(0xF0u8 | ((c >> 18) & 0x7) as u8 >= 0xF0) by (bit_vector);
    }
}

/// The bytes `0xC0` and `0xC1` appear in no UTF-8 text.
pub proof fn law_delimiters_never_in_utf8(text: Seq<char>)
    ensures
        !encode_utf8(text).contains(0xC0u8),
        !encode_utf8(text).contains(0xC1u8),
    decreases text.len(),
{
    if text.len() > 0 {
        vstd::utf8::char_is_scalar(text[0]);
        lemma_scalar_bytes(text[0] as u32);
        law_delimiters_never_in_utf8(text.drop_first());
        let head = encode_scalar(text[0] as u32);
        let tail = encode_utf8(text.drop_first());
        let all = encode_utf8(text);
        assert(all == head + tail);
        assert forall|i: int| 0 <= i < all.len() implies all[i] != 0xC0 && all[i] != 0xC1 by {
            if i >= head.len() {
                assert(all[i] == tail[i - head.len()]);
                assert(tail.contains(tail[i - head.len()]));
            }
        }
    }
}

/// What std tells about bytes that are not UTF-8: the bytes, the length of the longest prefix
/// that is UTF-8, and the length of the sequence that spoils it, where the bytes do not simply
/// end too early.
#[derive(Debug, PartialEq)]
pub struct Utf8Failure {
    pub bytes: Vec<u8>,
    pub valid_up_to: usize,
    pub error_len: Option<usize>,
}

/// Whether more bytes could still make UTF-8 of the bytes.
pub open spec fn ends_too_early(bytes: Seq<u8>) -> bool {
    exists|more: Seq<u8>| #[trigger] valid_utf8(bytes + more)
}

/// Exactly what a failed conversion of `bytes` reports.
pub open spec fn is_utf8_failure(failure: Utf8Failure, bytes: Seq<u8>) -> bool {
    &&& failure.bytes@ == bytes
    &&& failure.valid_up_to < bytes.len()
    &&& valid_utf8(bytes.take(failure.valid_up_to as int))
    &&& forall|n: int|
        failure.valid_up_to < n <= bytes.len() ==> !valid_utf8(#[trigger] bytes.take(n))
    &&& failure.error_len == utf8_error_len(bytes)
    &&& failure.error_len is None <==> ends_too_early(bytes)
    &&& failure.error_len matches Some(len) ==> failure.valid_up_to + len <= bytes.len()
}

/// What `std::str::Utf8Error::error_len` returns for the error that `bytes` give.
pub uninterp spec fn utf8_error_len(bytes: Seq<u8>) -> Option<usize>;

/// Calls `String::from_utf8`. It succeeds exactly on UTF-8, and the text is then the one that the
/// bytes encode. Otherwise the error gives back the bytes, and its `valid_up_to` is the largest
/// index up to which they are UTF-8. Its `error_len` depends on the bytes alone. It is missing
/// exactly where the bytes end too early, and else it is the length of a sequence of them. How long
/// that sequence is stays unsaid.
#[verifier::external_body]
pub(crate) fn string_from_utf8(bytes: Vec<u8>) -> (r: Result<String, Utf8Failure>)
    ensures
        match r {
            Ok(text) => valid_utf8(bytes@) && text@ == decode_utf8(bytes@),
            Err(failure) => {
                &&& !valid_utf8(bytes@)
                &&& is_utf8_failure(failure, bytes@)
                &&& failure.error_len == utf8_error_len(bytes@)
            },
        },
{
    match String::from_utf8(bytes) {
        Ok(text) => Ok(text),
        Err(err) => {
            let (valid_up_to, error_len) =
                (err.utf8_error().valid_up_to(), err.utf8_error().error_len());
            Err(Utf8Failure { bytes: err.into_bytes(), valid_up_to, error_len })
        },
    }
}

/// The chars with the Unicode property White_Space.
pub open spec fn is_white_space(c: char) -> bool {
    ||| '\u{9}' <= c <= '\u{D}'
    ||| c == ' '
    ||| c == '\u{85}'
    ||| c == '\u{A0}'
    ||| c == '\u{1680}'
    ||| '\u{2000}' <= c <= '\u{200A}'
    ||| c == '\u{2028}'
    ||| c == '\u{2029}'
    ||| c == '\u{202F}'
    ||| c == '\u{205F}'
    ||| c == '\u{3000}'
}

/// `s` without the white space at its two ends.
pub open spec fn trimmed(s: Seq<char>) -> Seq<char>
    decreases s.len(),
{
    if s.len() > 0 && is_white_space(s.first()) {
        trimmed(s.drop_first())
    } else if s.len() > 0 && is_white_space(s.last()) {
        trimmed(s.drop_last())
    } else {
        s
    }
}

/// `str::trim` removes the leading and the trailing chars that have the Unicode property
/// White_Space, and no other.
pub assume_specification[ str::trim ](s: &str) -> (r: &str)
    ensures
        r@ == trimmed(s@),
;

/// A digit in decimal notation.
pub open spec fn decimal_digit(n: nat) -> char {
    ('0' as int + n) as char
}

/// A number in decimal notation.
pub open spec fn decimal(n: nat) -> Seq<char>
    decreases n,
{
    if n < 10 {
        seq![decimal_digit(n)]
    } else {
        decimal(n / 10).push(decimal_digit(n % 10))
    }
}

/// The numbers in decimal notation, with a comma and a space between each two.
pub open spec fn listed(bytes: Seq<u8>) -> Seq<char>
    decreases bytes.len(),
{
    if bytes.len() == 0 {
        seq![]
    } else if bytes.len() == 1 {
        decimal(bytes[0] as nat)
    } else {
        listed(bytes.drop_last()) + ", "@ + decimal(bytes.last() as nat)
    }
}

/// The text of a digit.
fn digit_text(digit: usize) -> (r: &'static str)
    requires
        digit < 10,
    ensures
        r@ == seq![decimal_digit(digit as nat)],
{
    proof {
        reveal_strlit("0");
        reveal_strlit("1");
        reveal_strlit("2");
        reveal_strlit("3");
        reveal_strlit("4");
        reveal_strlit("5");
        reveal_strlit("6");
        reveal_strlit("7");
        reveal_strlit("8");
        reveal_strlit("9");
    }
    let r: &'static str = match digit {
        0 => "0",
        1 => "1",
        2 => "2",
        3 => "3",
        4 => "4",
        5 => "5",
        6 => "6",
        7 => "7",
        8 => "8",
        _ => "9",
    };
    assert(r@ =~= seq![decimal_digit(digit as nat)]);
    r
}

/// The text of a number.
pub fn decimal_text(n: usize) -> (r: String)
    ensures
        r@ == decimal(n as nat),
    decreases n,
{
    if n < 10 {
        digit_text(n).to_owned()
    } else {
        let r = decimal_text(n / 10).concat(digit_text(n % 10));
        assert(r@ =~= decimal(n as nat));
        r
    }
}

/// The text of a list of bytes.
pub fn bytes_text(bytes: &Vec<u8>) -> (r: String)
    ensures
        r@ == "["@ + listed(bytes@) + "]"@,
{
    let len: usize = bytes.len();
    let mut list: String = String::new();
    let mut i: usize = 0;
    assert(list@ =~= listed(bytes@.take(0)));
    while i < len
        invariant
            len == bytes.len(),
            i <= len,
            list@ == listed(bytes@.take(i as int)),
        decreases len - i,
    {
        let number = decimal_text(bytes[i] as usize);
        assert(bytes@.take(i + 1).drop_last() =~= bytes@.take(i as int));
        if i == 0 {
            list = number;
        } else {
            list = list.concat(", ").concat(number.as_str());
        }
        i += 1;
    }
    assert(bytes@.take(len as int) =~= bytes@);
    "[".to_owned().concat(list.as_str()).concat("]")
}

/// What the `Debug` of `str` writes for a text.
pub uninterp spec fn debugged(s: Seq<char>) -> Seq<char>;

/// Formats a text with the `Debug` of `str`: in quotes, with escapes. Which chars are escaped is
/// left unsaid.
#[verifier::external_body]
pub(crate) fn debug_text(s: &str) -> (r: String)
    ensures
        r@ == debugged(s@),
{
    format!("{:?}", s)
}

impl Utf8Failure {
    /// The text in which the failure is shown.
    pub open spec fn shown(&self) -> Seq<char> {
        match self.error_len {
            Some(len) => "invalid utf-8 sequence of "@ + decimal(len as nat) + " bytes from index "@
                + decimal(self.valid_up_to as nat),
            None => "incomplete utf-8 byte sequence from index "@ + decimal(
                self.valid_up_to as nat,
            ),
        }
    }

    /// The text in which the failure is shown.
    pub fn text(&self) -> (r: String)
        ensures
            r@ == self.shown(),
    {
        let index = decimal_text(self.valid_up_to);
        match self.error_len {
            Some(len) => "invalid utf-8 sequence of ".to_owned().concat(
                decimal_text(len).as_str(),
            ).concat(" bytes from index ").concat(index.as_str()),
            None => "incomplete utf-8 byte sequence from index ".to_owned().concat(index.as_str()),
        }
    }
}

} // verus!
