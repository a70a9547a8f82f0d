//! Messages, and the pakets that carry them.
use crate::error::{JsonError, MsgFromPaketError, TextValidityError};
use crate::json::{message_json, serialize_message};
use crate::text::{is_utf8_failure, string_from_utf8};
use crate::username::Username;
use vstd::prelude::*;
use vstd::utf8::{decode_utf8, encode_utf8, valid_utf8};

verus! {

/// Message is the type of packet unit that the client uses. They comprehend a username of at most
/// `Username::MAX_LEN` chars and a content of at most `Message::MAX_CONTENT_LEN` chars.
#[derive(Debug, PartialEq)]
pub struct Message {
    username: Username,
    content: String,
}

/// The two texts of a message.
#[verifier::ext_equal]
pub struct MessageView {
    pub username: Seq<char>,
    pub content: Seq<char>,
}

impl View for Message {
    type V = MessageView;

    closed spec fn view(&self) -> MessageView {
        MessageView { username: self.username@, content: self.content@ }
    }
}

impl Clone for Message {
    fn clone(&self) -> (r: Self)
        ensures
            r == *self,
    {
        proof {
            use_type_invariant(self);
        }
        Message { username: self.username.clone(), content: self.content.clone() }
    }
}

/// Whether a user is in the chat.
pub enum UserStatus {
    Present,
    Absent,
}

impl MessageView {
    /// Whether both texts are no longer than they may be.
    pub open spec fn valid(self) -> bool {
        &&& self.username.len() <= Username::MAX_LEN
        &&& self.content.len() <= Message::MAX_CONTENT_LEN
    }
}

/// The bytes that carry a message: its JSON text between the two delimiters.
pub open spec fn paket_bytes(message: MessageView) -> Seq<u8> {
    seq![Message::PAKET_INIT_U8] + encode_utf8(
        message_json(message.username, message.content),
    ) + seq![Message::PAKET_END_U8]
}

/// Whether the bytes stand between the two delimiters.
pub open spec fn is_framed(candidate: Seq<u8>) -> bool {
    &&& candidate.len() > 0
    &&& candidate.first() == Message::PAKET_INIT_U8
    &&& candidate.last() == Message::PAKET_END_U8
}

/// What stands between the two delimiters.
pub open spec fn paket_body(candidate: Seq<u8>) -> Seq<u8> {
    candidate.subrange(1, candidate.len() - 1)
}

/// The text that stands between the two delimiters, if there is one.
pub open spec fn paket_text(candidate: Seq<u8>) -> Option<Seq<char>> {
    if is_framed(candidate) && valid_utf8(paket_body(candidate)) {
        Some(decode_utf8(paket_body(candidate)))
    } else {
        None
    }
}

/// The error for bytes that hold no text between two delimiters.
pub open spec fn is_paket_error(candidate: Seq<u8>, err: MsgFromPaketError) -> bool {
    if candidate.len() == 0 {
        err is EmptyPaket
    } else if candidate.first() != Message::PAKET_INIT_U8 {
        err matches MsgFromPaketError::NoInitDelimiter { candidate: bytes } && bytes@ == candidate
    } else if candidate.last() != Message::PAKET_END_U8 {
        err matches MsgFromPaketError::NoEndDelimiter { candidate: bytes } && bytes@ == candidate
    } else {
        &&& !valid_utf8(paket_body(candidate))
        &&& err matches MsgFromPaketError::StringFromUtf8(failure)
        &&& is_utf8_failure(failure, paket_body(candidate))
    }
}

/// The outcome for the text of a paket, given what its parse as JSON replied.
pub open spec fn is_parsed_outcome(
    text: Seq<char>,
    reply: Result<(String, String), JsonError>,
    r: Result<Message, MsgFromPaketError>,
) -> bool {
    match reply {
        Ok(fields) => if fields.0@.len() > Username::MAX_LEN {
            &&& r matches Err(MsgFromPaketError::TextValidity(err))
            &&& err.is_too_long("username"@, fields.0@, Username::MAX_LEN)
        } else if fields.1@.len() > Message::MAX_CONTENT_LEN {
            &&& r matches Err(MsgFromPaketError::TextValidity(err))
            &&& err.is_too_long("content"@, fields.1@, Message::MAX_CONTENT_LEN)
        } else {
            &&& r matches Ok(message)
            &&& message@ == MessageView { username: fields.0@, content: fields.1@ }
            &&& message@.valid()
        },
        Err(err) => r matches Err(e) && e.is_serde_json(text, err),
    }
}

/// The outcome for a paket, given what the parse of its text replies where it has one.
pub open spec fn is_paket_outcome(
    candidate: Seq<u8>,
    reply: Result<(String, String), JsonError>,
    r: Result<Message, MsgFromPaketError>,
) -> bool {
    match paket_text(candidate) {
        Some(text) => is_parsed_outcome(text, reply, r),
        None => r matches Err(err) && is_paket_error(candidate, err),
    }
}

/// The outcome for a paket whose text the parser `parse` is asked to read.
pub open spec fn is_read_by<F: FnOnce(&str) -> Result<(String, String), JsonError>>(
    candidate: Seq<u8>,
    parse: F,
    r: Result<Message, MsgFromPaketError>,
) -> bool {
    match paket_text(candidate) {
        Some(expected) => exists|text: &str, reply: Result<(String, String), JsonError>|
            {
                &&& text@ == expected
                &&& #[trigger] parse.ensures((text,), reply)
                &&& is_paket_outcome(candidate, reply, r)
            },
        None => r matches Err(err) && is_paket_error(candidate, err),
    }
}

/// The number of messages that a text of `len` chars needs.
pub open spec fn chunk_count(len: nat) -> nat {
    (len + Message::MAX_CONTENT_LEN - 1) as nat / Message::MAX_CONTENT_LEN as nat
}

/// The part of the text that the `i`th of its messages carries: as many chars as fit, or what is
/// left.
pub open spec fn chunk(text: Seq<char>, i: int) -> Seq<char> {
    let start = i * Message::MAX_CONTENT_LEN;
    let end = start + Message::MAX_CONTENT_LEN;
    text.subrange(start, if end < text.len() {
        end
    } else {
        text.len() as int
    })
}

/// The messages that carry the text.
pub open spec fn chunked(username: Seq<char>, text: Seq<char>) -> Seq<MessageView> {
    Seq::new(
        chunk_count(text.len()),
        |i: int| MessageView { username, content: chunk(text, i) },
    )
}

/// The pakets of the messages, one after the other.
pub open spec fn stream_of(messages: Seq<MessageView>) -> Seq<u8>
    decreases messages.len(),
{
    if messages.len() == 0 {
        seq![]
    } else {
        stream_of(messages.drop_last()) + paket_bytes(messages.last())
    }
}

/// What comes of a username and a content for a message.
pub open spec fn is_new_outcome(
    username: Seq<char>,
    content: Seq<char>,
    r: Result<Message, TextValidityError>,
) -> bool {
    match r {
        Ok(message) => {
            &&& content.len() <= Message::MAX_CONTENT_LEN
            &&& message@ == MessageView { username, content }
            &&& message@.valid()
        },
        Err(err) => {
            &&& content.len() > Message::MAX_CONTENT_LEN
            &&& err.is_too_long("content"@, content, Message::MAX_CONTENT_LEN)
        },
    }
}

/// The line in which a message is shown to a user.
pub open spec fn line_of_message(message: MessageView) -> Seq<char> {
    message.username + ":> "@ + message.content
}

/// The message with which a client greets the server.
pub open spec fn helo_message(username: Seq<char>) -> MessageView {
    MessageView { username, content: "helo"@ }
}

/// The message with which the server ends a connection.
pub open spec fn interrupt_message() -> MessageView {
    MessageView {
        username: "SERVER"@,
        content: "The SERVER is shutting down this connection."@,
    }
}

/// What the chat is told of a user whose status changes.
pub open spec fn status_text(username: Seq<char>, new_status: UserStatus) -> Seq<char> {
    match new_status {
        UserStatus::Present => username + " just joined the chat"@,
        UserStatus::Absent => username + " just left the chat"@,
    }
}

impl Message {
    /// The username and the content are no longer than they may be.
    #[verifier::type_invariant]
    pub open spec fn valid(&self) -> bool {
        self@.valid()
    }

    /// The delimiters to send serialised messages in bytes through TCP connections. They are not
    /// appearing in any UTF-8 char as a byte (see `law_delimiters_never_in_utf8`), thus the text
    /// does not need to be checked for their presence.
    pub const PAKET_INIT_U8: u8 = 0xC0;

    pub const PAKET_END_U8: u8 = 0xC1;

    /// Maximal length (in chars) of the content of the message. Keep in mind that a char is at
    /// most 4 byte long.
    pub const MAX_CONTENT_LEN: usize = 10000 / 2;

    /// The magic number 40 is here a rough estimate for the bytes needed for the JSON
    /// encapsulation. The lengths are multiplied by 4 because that is the maximum length in bytes
    /// of a char, and 1 more byte is counted for the `\` that may stand before it. A control char
    /// that is written as `\u00..` takes 6 bytes and is not accounted for.
    pub const MAX_PAKET_U8_LEN: usize = Message::MAX_CONTENT_LEN * (4 + 1) + Username::MAX_LEN * (4
        + 1) + 40;

    pub const INCOMING_MSG_BUFFER_U8_LEN: usize = 1000;

    pub const OUTGOING_MSG_BUFFER_U8_LEN: usize = 1000;

    pub const MAX_OFFICIAL_CONTENT_LEN: usize = 100;

    pub const MAX_OFFICIAL_PAKET_U8_LEN: usize = Message::MAX_OFFICIAL_CONTENT_LEN * (4 + 1)
        + Username::MAX_LEN * (4 + 1) + 40;

    /// Makes a message of the content if it is not too long.
    pub fn new(username: &Username, content: &str) -> (r: Result<Message, TextValidityError>)
        ensures
            is_new_outcome(username@, content@, r),
    {
        let actual_len: usize = content.unicode_len();
        if actual_len > Message::MAX_CONTENT_LEN {
            return Err(
                TextValidityError::TooLong {
                    kind_of_entity: "content".to_owned(),
                    actual_entity: content.to_owned(),
                    max_len: Message::MAX_CONTENT_LEN,
                    actual_len,
                },
            );
        }
        proof {
            use_type_invariant(username);
        }
        Ok(Message { username: username.clone(), content: content.to_owned() })
    }

    /// Spreads a text of any length over as many messages as it needs.
    pub fn new_many(username: &Username, text: &str) -> (r: Vec<Message>)
        ensures
            r@.map_values(|message: Message| message@) == chunked(username@, text@),
    {
        let len: usize = text.unicode_len();
        let mut messages: Vec<Message> = Vec::new();
        let mut start: usize = 0;
        while start < len
            invariant
                len == text@.len(),
                start <= len,
                start == messages.len() * Message::MAX_CONTENT_LEN || start == len,
                messages.len() == chunk_count(start as nat),
                forall|i: int|
                    0 <= i < messages.len() ==> (#[trigger] messages[i])@ == (MessageView {
                        username: username@,
                        content: chunk(text@, i),
                    }),
            decreases len - start,
        {
            let end: usize = if len - start > Message::MAX_CONTENT_LEN {
                start + Message::MAX_CONTENT_LEN
            } else {
                len
            };
            let content = text.substring_char(start, end);
            assert(content@ == chunk(text@, messages.len() as int));
            proof {
                let n = messages.len() as int;
                assert((n + 1) * 5000 == n * 5000 + 5000) by (nonlinear_arith);
                assert(start == n * 5000);
            }
            messages.push(Message::new(username, content).unwrap());
            start = end;
        }
        assert(messages@.map_values(|message: Message| message@) =~= chunked(username@, text@));
        messages
    }

    /// The pakets of the messages over which a text is spread, one after the other.
    pub fn pakets_of_text(username: &Username, text: &str) -> (r: Vec<u8>)
        ensures
            r@ == stream_of(chunked(username@, text@)),
    {
        let messages = Message::new_many(username, text);
        let ghost views = messages@.map_values(|message: Message| message@);
        let len: usize = messages.len();
        let mut pakets: Vec<u8> = Vec::new();
        let mut i: usize = 0;
        assert(stream_of(views.take(0)) =~= Seq::<u8>::empty());
        while i < len
            invariant
                len == messages.len(),
                i <= len,
                views == messages@.map_values(|message: Message| message@),
                pakets@ == stream_of(views.take(i as int)),
            decreases len - i,
        {
            let mut paket = messages[i].clone().paket();
            pakets.append(&mut paket);
            assert(views.take(i + 1).drop_last() =~= views.take(i as int));
            i += 1;
        }
        assert(views.take(len as int) =~= views);
        pakets
    }

    /// The username of the sender.
    pub fn get_username(&self) -> (r: Username)
        ensures
            r@ == self@.username,
            self@.valid(),
    {
        proof {
            use_type_invariant(self);
        }
        self.username.clone()
    }

    /// The content of the message.
    pub fn get_content(&self) -> (r: String)
        ensures
            r@ == self@.content,
            self@.valid(),
    {
        proof {
            use_type_invariant(self);
        }
        self.content.clone()
    }

    /// The line in which the message is shown to a user.
    pub fn shown_line(&self) -> (r: String)
        ensures
            r@ == line_of_message(self@),
    {
        self.username.to_string().concat(":> ").concat(self.content.as_str())
    }

    /// The bytes that carry the message.
    pub fn paket(self) -> (r: Vec<u8>)
        ensures
            r@ == paket_bytes(self@),
    {
        let mut serialized_in_bytes = serialize_message(
            self.username.as_str(),
            self.content.as_str(),
        );
        let mut paket: Vec<u8> = Vec::new();
        paket.push(Message::PAKET_INIT_U8);
        paket.append(&mut serialized_in_bytes);
        paket.push(Message::PAKET_END_U8);
        assert(paket@ =~= paket_bytes(self@));
        paket
    }

    /// The text that stands between the delimiters of a paket.
    pub fn serialised_in_paket(candidate: Vec<u8>) -> (r: Result<String, MsgFromPaketError>)
        ensures
            match r {
                Ok(text) => paket_text(candidate@) == Some(text@),
                Err(err) => paket_text(candidate@) is None && is_paket_error(candidate@, err),
            },
    {
        let len: usize = candidate.len();
        if len == 0 {
            return Err(MsgFromPaketError::EmptyPaket);
        }
        if candidate[0] != Message::PAKET_INIT_U8 {
            return Err(MsgFromPaketError::NoInitDelimiter { candidate });
        }
        if candidate[len - 1] != Message::PAKET_END_U8 {
            return Err(MsgFromPaketError::NoEndDelimiter { candidate });
        }
        let mut dispaketed: Vec<u8> = Vec::new();
        dispaketed.extend_from_slice(&candidate[1..len - 1]);
        assert(dispaketed@ =~= paket_body(candidate@));
        match string_from_utf8(dispaketed) {
            Ok(text) => Ok(text),
            Err(failure) => Err(MsgFromPaketError::StringFromUtf8(failure)),
        }
    }

    /// The message that the text of a paket stands for, given the reply of the JSON parser to
    /// this text: the members `username` and `content`, or its error.
    pub fn from_parsed(
        serialised: String,
        reply: Result<(String, String), JsonError>,
    ) -> (r: Result<Message, MsgFromPaketError>)
        ensures
            is_parsed_outcome(serialised@, reply, r),
    {
        match reply {
            Ok((username, content)) => match Username::new(username.as_str()) {
                Ok(username) => match Message::new(&username, content.as_str()) {
                    Ok(message) => Ok(message),
                    Err(err) => Err(MsgFromPaketError::TextValidity(err)),
                },
                Err(err) => Err(MsgFromPaketError::TextValidity(err)),
            },
            Err(err) => Err(
                MsgFromPaketError::SerdeJson {
                    dispaketed_candidate: serialised,
                    category: err.category,
                    io_error_kind: err.io_error_kind,
                    line: err.line,
                    column: err.column,
                },
            ),
        }
    }

    /// The message that a paket carries. `parse` is the JSON parser: it is called on the text of
    /// the paket, once, if there is one.
    pub fn from_paket<F: FnOnce(&str) -> Result<(String, String), JsonError>>(
        candidate: Vec<u8>,
        parse: F,
    ) -> (r: Result<Message, MsgFromPaketError>)
        requires
            forall|text: &str|
                paket_text(candidate@) == Some(text@) ==> #[trigger] parse.requires((text,)),
        ensures
            is_read_by(candidate@, parse, r),
    {
        match Message::serialised_in_paket(candidate) {
            Ok(serialised) => {
                let reply = parse(serialised.as_str());
                Message::from_parsed(serialised, reply)
            },
            Err(err) => Err(err),
        }
    }

    /// The message with which a client greets the server.
    pub fn craft_msg_helo(username: &Username) -> (r: Message)
        ensures
            r@ == helo_message(username@),
            r@.valid(),
    {
        proof {
            reveal_strlit("helo");
        }
        Message::new(username, "helo").unwrap()
    }

    /// The username under which the server speaks.
    fn server_username() -> (r: Username)
        ensures
            r@ == "SERVER"@,
    {
        proof {
            reveal_strlit("SERVER");
        }
        Username::new("SERVER").unwrap()
    }

    /// The message with which the server tells the chat that a user joined or left it.
    pub fn craft_msg_change_status(username: &Username, new_status: UserStatus) -> (r: Message)
        ensures
            r@ == (MessageView {
                username: "SERVER"@,
                content: status_text(username@, new_status),
            }),
            r@.valid(),
            r@.content.len() <= Message::MAX_OFFICIAL_CONTENT_LEN,
    {
        proof {
            use_type_invariant(username);
            reveal_strlit(" just joined the chat");
            reveal_strlit(" just left the chat");
        }
        let content = match new_status {
            UserStatus::Present => username.to_string().concat(" just joined the chat"),
            UserStatus::Absent => username.to_string().concat(" just left the chat"),
        };
        Message::new(&Message::server_username(), content.as_str()).unwrap()
    }

    /// The message with which the server ends a connection.
    pub fn craft_msg_server_interrupt_connection() -> (r: Message)
        ensures
            r@ == interrupt_message(),
            r@.valid(),
    {
        proof {
            reveal_strlit("The SERVER is shutting down this connection.");
        }
        Message::new(
            &Message::server_username(),
            "The SERVER is shutting down this connection.",
        ).unwrap()
    }
}

} // verus!
