//! The JSON text of a message.
use crate::text::{lemma_encode_utf8_concat, lemma_encode_utf8_single};
use vstd::prelude::*;
use vstd::utf8::encode_utf8;

verus! {

/// The digit of `n` in hexadecimal notation.
pub open spec fn hex_digit(n: int) -> char {
    if n < 10 {
        ('0' as int + n) as char
    } else {
        ('a' as int + n - 10) as char
    }
}

/// The control chars that have no short escape.
pub open spec fn is_hex_escaped(c: char) -> bool {
    &&& c < ' '
    &&& c != '\u{8}'
    &&& c != '\t'
    &&& c != '\n'
    &&& c != '\u{C}'
    &&& c != '\r'
}

/// How a char is written inside a JSON string.
pub open spec fn json_char(c: char) -> Seq<char> {
    if c == '"' {
        seq!['\\', '"']
    } else if c == '\\' {
        seq!['\\', '\\']
    } else if c == '\u{8}' {
        seq!['\\', 'b']
    } else if c == '\t' {
        seq!['\\', 't']
    } else if c == '\n' {
        seq!['\\', 'n']
    } else if c == '\u{C}' {
        seq!['\\', 'f']
    } else if c == '\r' {
        seq!['\\', 'r']
    } else if is_hex_escaped(c) {
        seq!['\\', 'u', '0', '0', hex_digit(c as int / 16), hex_digit(c as int % 16)]
    } else {
        seq![c]
    }
}

/// The chars of `s`, each as it is written inside a JSON string.
pub open spec fn json_chars(s: Seq<char>) -> Seq<char>
    decreases s.len(),
{
    if s.len() == 0 {
        seq![]
    } else {
        json_char(s[0]) + json_chars(s.drop_first())
    }
}

/// The JSON text of the object whose members are `username` and `content`, in this order.
pub open spec fn message_json(username: Seq<char>, content: Seq<char>) -> Seq<char> {
    "{\"username\":\""@ + json_chars(username) + "\",\"content\":\""@ + json_chars(content)
        + "\"}"@
}

/// Serialises with `serde_json::Serializer` a struct of the two string fields `username` and
/// `content`, in this order. The bytes written are those of the compact JSON text of the object:
/// no white space between the tokens, and in the strings the escapes that `json_char` lists.
/// Writing to a `Vec` and serialising a `str` cannot fail.
#[verifier::external_body]
pub(crate) fn serialize_message(username: &str, content: &str) -> (r: Vec<u8>)
    ensures
        r@ == encode_utf8(message_json(username@, content@)),
{
    let mut bytes: Vec<u8> = Vec::new();
    let mut serializer = serde_json::Serializer::new(&mut bytes);
    let mut fields = serde::Serializer::serialize_struct(&mut serializer, "Message", 2).unwrap();
    serde::ser::SerializeStruct::serialize_field(&mut fields, "username", username).unwrap();
    serde::ser::SerializeStruct::serialize_field(&mut fields, "content", content).unwrap();
    serde::ser::SerializeStruct::end(fields).unwrap();
    bytes
}

/// No escape is the beginning of another: from `json_char(a) + x == json_char(b) + y` follows
/// that the chars are the same, and so are the rests.
proof fn lemma_json_char_prefix(a: char, x: Seq<char>, b: char, y: Seq<char>)
    requires
        json_char(a) + x == json_char(b) + y,
    ensures
        a == b,
        x == y,
{
    let p = json_char(a) + x;
    let q = json_char(b) + y;
    assert(p[0] == json_char(a)[0] && q[0] == json_char(b)[0]);
    if json_char(a).len() > 1 && json_char(b).len() > 1 {
        assert(p[1] == json_char(a)[1] && q[1] == json_char(b)[1]);
        if is_hex_escaped(a) && is_hex_escaped(b) {
            assert(p[4] == json_char(a)[4] && q[4] == json_char(b)[4]);
            assert(p[5] == json_char(a)[5] && q[5] == json_char(b)[5]);
        }
    }
    assert(a == b);
    assert(x =~= p.skip(json_char(a).len() as int));
    assert(y =~= q.skip(json_char(b).len() as int));
}

/// The closing quote ends an escaped text unmistakably.
pub proof fn lemma_json_chars_prefix(s: Seq<char>, x: Seq<char>, t: Seq<char>, y: Seq<char>)
    requires
        json_chars(s) + seq!['"'] + x == json_chars(t) + seq!['"'] + y,
    ensures
        s == t,
        x == y,
    decreases s.len(),
{
    let p = json_chars(s) + seq!['"'] + x;
    let q = json_chars(t) + seq!['"'] + y;
    if s.len() == 0 || t.len() == 0 {
        if s.len() > 0 {
            assert(p[0] == json_char(s[0])[0]);
            assert(q[0] == '"');
        }
        if t.len() > 0 {
            assert(q[0] == json_char(t[0])[0]);
            assert(p[0] == '"');
        }
        assert(s =~= t);
        assert(x =~= p.skip(1));
        assert(y =~= q.skip(1));
    } else {
        let p1 = json_chars(s.drop_first()) + seq!['"'] + x;
        let q1 = json_chars(t.drop_first()) + seq!['"'] + y;
        assert(p =~= json_char(s[0]) + p1);
        assert(q =~= json_char(t[0]) + q1);
        lemma_json_char_prefix(s[0], p1, t[0], q1);
        lemma_json_chars_prefix(s.drop_first(), x, t.drop_first(), y);
        assert(s =~= seq![s[0]] + s.drop_first());
        assert(t =~= seq![t[0]] + t.drop_first());
    }
}

/// Two messages with the same JSON text are the same message.
pub proof fn lemma_message_json_injective(
    username: Seq<char>,
    content: Seq<char>,
    other_username: Seq<char>,
    other_content: Seq<char>,
)
    requires
        message_json(username, content) == message_json(other_username, other_content),
    ensures
        username == other_username,
        content == other_content,
{
    reveal_strlit("{\"username\":\"");
    reveal_strlit("\",\"content\":\"");
    reveal_strlit("\"}");
    let head = "{\"username\":\""@;
    let middle = "\",\"content\":\""@;
    let last = "\"}"@;
    let x = middle.skip(1) + json_chars(content) + last;
    let y = middle.skip(1) + json_chars(other_content) + last;
    let p = message_json(username, content);
    let q = message_json(other_username, other_content);
    assert(middle =~= seq!['"'] + middle.skip(1));
    assert(last =~= seq!['"'] + last.skip(1));
    assert(p =~= head + (json_chars(username) + seq!['"'] + x));
    assert(q =~= head + (json_chars(other_username) + seq!['"'] + y));
    assert(json_chars(username) + seq!['"'] + x =~= p.skip(head.len() as int));
    assert(json_chars(other_username) + seq!['"'] + y =~= q.skip(head.len() as int));
    lemma_json_chars_prefix(username, x, other_username, y);
    let n = middle.len() - 1;
    assert(json_chars(content) + seq!['"'] + last.skip(1) =~= x.skip(n));
    assert(json_chars(other_content) + seq!['"'] + last.skip(1) =~= y.skip(n));
    lemma_json_chars_prefix(content, last.skip(1), other_content, last.skip(1));
}

/// The number of chars of `s` that are written as `\u00..`.
pub open spec fn hex_escaped_count(s: Seq<char>) -> nat
    decreases s.len(),
{
    if s.len() == 0 {
        0
    } else {
        hex_escaped_count(s.drop_first()) + if is_hex_escaped(s[0]) {
            1nat
        } else {
            0nat
        }
    }
}

/// Four bytes are enough for a char inside a JSON string, and six for one written as `\u00..`.
pub proof fn lemma_json_char_width(c: char)
    ensures
        is_hex_escaped(c) ==> encode_utf8(json_char(c)).len() == 6,
        !is_hex_escaped(c) ==> encode_utf8(json_char(c)).len() <= 4,
{
    reveal_with_fuel(encode_utf8, 7);
    if json_char(c).len() == 1 {
        lemma_encode_utf8_single(c);
    }
}

/// The bytes that the escaped chars of `s` take.
pub proof fn lemma_json_chars_width(s: Seq<char>)
    ensures
        encode_utf8(json_chars(s)).len() <= 4 * s.len() + 2 * hex_escaped_count(s),
        hex_escaped_count(s) <= s.len(),
    decreases s.len(),
{
    if s.len() > 0 {
        lemma_json_char_width(s[0]);
        lemma_json_chars_width(s.drop_first());
        lemma_encode_utf8_concat(json_char(s[0]), json_chars(s.drop_first()));
    }
}

/// The braces, quotes, names, colons and comma of the object take 28 bytes.
pub proof fn lemma_message_json_width(username: Seq<char>, content: Seq<char>)
    ensures
        encode_utf8(message_json(username, content)).len() == 28 + encode_utf8(
            json_chars(username),
        ).len() + encode_utf8(json_chars(content)).len(),
{
    reveal_strlit("{\"username\":\"");
    reveal_strlit("\",\"content\":\"");
    reveal_strlit("\"}");
    let head = "{\"username\":\""@;
    let middle = "\",\"content\":\""@;
    let last = "\"}"@;
    vstd::utf8::is_ascii_chars_encode_utf8(head);
    vstd::utf8::is_ascii_chars_encode_utf8(middle);
    vstd::utf8::is_ascii_chars_encode_utf8(last);
    lemma_encode_utf8_concat(head, json_chars(username));
    lemma_encode_utf8_concat(head + json_chars(username), middle);
    lemma_encode_utf8_concat(head + json_chars(username) + middle, json_chars(content));
    lemma_encode_utf8_concat(
        head + json_chars(username) + middle + json_chars(content),
        last,
    );
}

} // verus!
