//! What holds of single operations, said of their inputs and results alone.
use crate::constant::MAX_NUM_USERS;
use crate::dispatch::{Dispatch, DispatchView};
use crate::error::{
    JsonError, JsonErrorCategory, MsgFromPaketError, TextValidityError, UnusualEmptyEntity,
};
use crate::extractor::{
    after_first_end, after_read, are_reports_on_read, ends_once, fitting, forwarded_on_read,
    fragment_of, has_end, is_extractor_step, is_too_long, lemma_cut_without_end, pakets_of,
    too_long, ExtractorAction, ExtractorReport, ExtractorView, ReadEvent,
};
use crate::laws::{
    contents, law_chunks_carry_the_text, law_chunks_valid, law_cut,
    law_stream_is_cut_into_its_pakets, lemma_one_more_buffer,
};
use crate::message::{
    chunked, helo_message, interrupt_message, is_new_outcome, is_paket_error, is_paket_outcome,
    is_parsed_outcome, is_read_by, line_of_message, paket_bytes, paket_text, status_text,
    stream_of, Message, MessageView, UserStatus,
};
use crate::prompt::{
    completes_line, ends_line, fits, is_chunk_outcome, is_prompt_outcome, is_stdin_step,
    prompt_line, without_newline, PromptOutcome, StdinAction, StdinEvent, StdinView,
};
use crate::server::{
    handler_outcome, is_accept_step, is_client_step, is_greet_outcome, AcceptAction, AcceptEvent,
    ClientAction, ClientEvent, ClientHandlerError, ClientHandlerErrorCause, ClientReader, ClientReaderView, FirstPaket, NoHelo,
};
use crate::small_error::small_error_line;
use crate::text::{debugged, decimal, is_white_space, listed, trimmed, Utf8Failure};
use crate::username::{is_line_outcome, is_username_outcome, Username};
use vstd::prelude::*;
use vstd::utf8::{decode_utf8, valid_utf8};

verus! {

// ---------------------------------------------------------------------------------------------
// Numbers and texts
// ---------------------------------------------------------------------------------------------
/// The number that decimal digits stand for.
pub open spec fn number_of(digits: Seq<char>) -> int
    decreases digits.len(),
{
    if digits.len() == 0 {
        0
    } else {
        10 * number_of(digits.drop_last()) + (digits.last() as int - '0' as int)
    }
}

/// The decimal notation of a number consists of digits, stands for the number, and starts with no
/// zero that it could do without.
pub proof fn law_decimal(n: nat)
    ensures
        decimal(n).len() > 0,
        forall|i: int| 0 <= i < decimal(n).len() ==> '0' <= #[trigger] decimal(n)[i] <= '9',
        number_of(decimal(n)) == n,
        decimal(n)[0] == '0' ==> n == 0 && decimal(n).len() == 1,
    decreases n,
{
    let digits = decimal(n);
    reveal_with_fuel(number_of, 2);
    if n < 10 {
        assert(digits.drop_last() =~= Seq::empty());
    } else {
        law_decimal(n / 10);
        assert(digits.drop_last() =~= decimal(n / 10));
        assert(digits[0] == decimal(n / 10)[0]);
    }
}

/// Two different numbers have two different decimal notations.
pub proof fn law_decimal_injective(n: nat, m: nat)
    requires
        decimal(n) == decimal(m),
    ensures
        n == m,
{
    law_decimal(n);
    law_decimal(m);
}

/// The list of one byte is its number, and the lists of two parts follow each other behind a comma
/// and a space. So no byte is left out, added or moved.
pub proof fn law_listed(first: Seq<u8>, byte: u8, second: Seq<u8>)
    ensures
        listed(Seq::empty()) == Seq::<char>::empty(),
        listed(seq![byte]) == decimal(byte as nat),
        first.len() > 0 && second.len() > 0 ==> listed(first + second) == listed(first) + seq![
            ',',
            ' ',
        ] + listed(second),
    decreases second.len(),
{
    reveal_strlit(", ");
    assert(", "@ =~= seq![',', ' ']);
    if first.len() > 0 && second.len() > 0 {
        let whole = first + second;
        assert(whole.drop_last() =~= first + second.drop_last());
        if second.len() == 1 {
            assert(first + second.drop_last() =~= first);
            assert(second =~= seq![second[0]]);
        } else {
            law_listed(first, byte, second.drop_last());
            assert(listed(whole) =~= listed(first) + seq![',', ' '] + listed(second));
        }
    }
}

/// Trimming takes away white space at the two ends only, and all of it.
pub proof fn law_trimmed(s: Seq<char>) -> (ends: (int, int))
    ensures
        0 <= ends.0 <= ends.1 <= s.len(),
        trimmed(s) == s.subrange(ends.0, ends.1),
        forall|i: int| 0 <= i < ends.0 ==> is_white_space(#[trigger] s[i]),
        forall|i: int| ends.1 <= i < s.len() ==> is_white_space(#[trigger] s[i]),
        trimmed(s).len() > 0 ==> !is_white_space(trimmed(s).first()) && !is_white_space(
            trimmed(s).last(),
        ),
    decreases s.len(),
{
    if s.len() > 0 && is_white_space(s.first()) {
        let inner = s.drop_first();
        let ends = law_trimmed(inner);
        assert(s.subrange(ends.0 + 1, ends.1 + 1) =~= inner.subrange(ends.0, ends.1));
        assert forall|i: int| 0 <= i < ends.0 + 1 implies is_white_space(#[trigger] s[i]) by {
            if i > 0 {
                assert(inner[i - 1] == s[i]);
            }
        }
        assert forall|i: int| ends.1 + 1 <= i < s.len() implies is_white_space(
            #[trigger] s[i],
        ) by {
            assert(inner[i - 1] == s[i]);
        }
        (ends.0 + 1, ends.1 + 1)
    } else if s.len() > 0 && is_white_space(s.last()) {
        let inner = s.drop_last();
        let ends = law_trimmed(inner);
        assert(s.subrange(ends.0, ends.1) =~= inner.subrange(ends.0, ends.1));
        assert forall|i: int| 0 <= i < ends.0 implies is_white_space(#[trigger] s[i]) by {
            assert(inner[i] == s[i]);
        }
        assert forall|i: int| ends.1 <= i < s.len() implies is_white_space(#[trigger] s[i]) by {
            if i < inner.len() {
                assert(inner[i] == s[i]);
            }
        }
        ends
    } else {
        assert(s.subrange(0, s.len() as int) =~= s);
        (0, s.len() as int)
    }
}

/// A candidate is taken for a username, as it is, exactly if it has at most 32 chars. Else the error
/// tells its length and the whole candidate.
pub proof fn law_username(candidate: Seq<char>, r: Result<Username, TextValidityError>)
    requires
        is_username_outcome(candidate, r),
    ensures
        r is Ok <==> candidate.len() <= 32,
        r matches Ok(username) ==> username@ == candidate,
        r matches Err(err) ==> is_about(err, "username"@, candidate, 32),
{
}

/// A username from a line is the line without the white space at its two ends, if this has at most
/// 32 chars; else the error tells its length and the whole of it.
pub proof fn law_username_of_line(
    line: Seq<char>,
    r: Result<Username, TextValidityError>,
) -> (ends: (int, int))
    requires
        is_line_outcome(line, r),
    ensures
        0 <= ends.0 <= ends.1 <= line.len(),
        forall|i: int| 0 <= i < ends.0 ==> is_white_space(#[trigger] line[i]),
        forall|i: int| ends.1 <= i < line.len() ==> is_white_space(#[trigger] line[i]),
        ends.0 < ends.1 ==> !is_white_space(line[ends.0]) && !is_white_space(line[ends.1 - 1]),
        r is Ok <==> ends.1 - ends.0 <= 32,
        r matches Ok(username) ==> username@ == line.subrange(ends.0, ends.1),
        r matches Err(err) ==> is_about(err, "username"@, line.subrange(ends.0, ends.1), 32),
{
    law_trimmed(line)
}

/// A message is made of a username and a content, as they are, exactly if the content has at most
/// 5000 chars. Else the error tells its length and the whole content.
pub proof fn law_new_message(
    username: Seq<char>,
    content: Seq<char>,
    r: Result<Message, TextValidityError>,
)
    requires
        is_new_outcome(username, content, r),
    ensures
        r is Ok <==> content.len() <= 5000,
        r matches Ok(message) ==> message@.username == username && message@.content == content,
        r matches Err(err) ==> is_about(err, "content"@, content, 5000),
{
}

/// A message is shown as its whole username, a colon, an angle and a space, and its whole content;
/// the user is asked for input by the same beginning.
pub proof fn law_shown_lines(message: MessageView)
    ensures
        line_of_message(message) == prompt_line(message.username) + message.content,
        prompt_line(message.username) == message.username + seq![':', '>', ' '],
{
    reveal_strlit(":> ");
    assert(":> "@ =~= seq![':', '>', ' ']);
}

/// A report of an error ends with the whole text of the error, and always begins the same.
pub proof fn law_small_error_line(err: Seq<char>, other: Seq<char>)
    ensures
        small_error_line(err).len() >= err.len(),
        small_error_line(err).skip(small_error_line(err).len() - err.len()) == err,
        small_error_line(err).take(small_error_line(err).len() - err.len())
            == "##SmallError. Error: "@,
        small_error_line(err) == small_error_line(other) ==> err == other,
{
    let line = small_error_line(err);
    let start = "##SmallError. Error: "@;
    assert(line.skip(start.len() as int) =~= err);
    assert(line.take(start.len() as int) =~= start);
    let other_line = small_error_line(other);
    assert(other_line.skip(start.len() as int) =~= other);
}

// ---------------------------------------------------------------------------------------------
// Texts of errors
// ---------------------------------------------------------------------------------------------
/// Whether the error is about this text, of this kind, with this limit.
pub open spec fn is_about(
    err: TextValidityError,
    kind: Seq<char>,
    entity: Seq<char>,
    limit: int,
) -> bool {
    match err {
        TextValidityError::TooLong { kind_of_entity, actual_entity, max_len, actual_len } => {
            &&& kind_of_entity@ == kind
            &&& actual_entity@ == entity
            &&& max_len == limit
            &&& actual_len == entity.len()
            &&& actual_len > max_len
        },
    }
}

/// The text of an error about a too long entity names its kind, the limit, its length and the whole
/// entity.
pub proof fn law_text_of_too_long(
    err: TextValidityError,
    kind: String,
    entity: String,
    max: usize,
    actual: usize,
)
    requires
        err == (TextValidityError::TooLong {
            kind_of_entity: kind,
            actual_entity: entity,
            max_len: max,
            actual_len: actual,
        }),
    ensures
        err.shown() == "Too long "@ + kind@ + " (expected at most "@ + decimal(max as nat)
            + " chars, found "@ + decimal(actual as nat) + "): [["@ + entity@ + "]]."@,
        MsgFromPaketError::TextValidity(err).shown() == err.shown(),
{
}

/// The text of an error about a missing delimiter names the delimiter and all bytes of the
/// candidate, that of an empty paket says so, and that of bytes that are no UTF-8 names the place.
pub proof fn law_text_of_unreadable_bytes(candidate: Vec<u8>, failure: Utf8Failure)
    ensures
        (MsgFromPaketError::NoInitDelimiter { candidate }).shown()
            == "No paket init byte delimiter (\u{C0}) found in the utf8 sample. The sample is: [["@
            + ("["@ + listed(candidate@) + "]"@) + "]]."@,
        (MsgFromPaketError::NoEndDelimiter { candidate }).shown()
            == "No paket end byte delimiter (\u{C1}) found in the utf8 sample. The sample is: [["@
            + ("["@ + listed(candidate@) + "]"@) + "]]."@,
        MsgFromPaketError::EmptyPaket.shown() == "The utf8 paket given was empty."@,
        MsgFromPaketError::StringFromUtf8(failure).shown() == failure.shown(),
        failure.error_len matches Some(len) ==> failure.shown() == "invalid utf-8 sequence of "@
            + decimal(len as nat) + " bytes from index "@ + decimal(failure.valid_up_to as nat),
        failure.error_len is None ==> failure.shown()
            == "incomplete utf-8 byte sequence from index "@ + decimal(
            failure.valid_up_to as nat,
        ),
{
}

/// The text of a failed parse holds the whole text that was parsed, the category, the kind of
/// failure and the place.
pub proof fn law_text_of_failed_parse(err: MsgFromPaketError, text: Seq<char>, reported: JsonError)
    requires
        err.is_serde_json(text, reported),
    ensures
        err.shown() == "serde_json Error: [["@ + debugged(text) + "]], "@ + (
        match reported.category {
            JsonErrorCategory::Io => "Io"@,
            JsonErrorCategory::Syntax => "Syntax"@,
            JsonErrorCategory::Data => "Data"@,
            JsonErrorCategory::Eof => "Eof"@,
        }) + ", "@ + (match reported.io_error_kind {
            Some(name) => "Some("@ + name@ + ")"@,
            None => "None"@,
        }) + ", at coord (line, column)=("@ + decimal(reported.line as nat) + ","@ + decimal(
            reported.column as nat,
        ) + ")."@,
{
}

/// The texts of what is reported beside the pakets, and of what ends the handling of a client.
pub proof fn law_texts_of_reports<A, E, J>(
    paket_u8_len: usize,
    unusual: UnusualEmptyEntity,
    no_helo: NoHelo,
    err: ClientHandlerError<A, E, J>,
    address: Seq<char>,
    cause: Seq<char>,
)
    ensures
        (ExtractorReport::TooLongPaket { paket_u8_len }).shown()
            == "A too long paket arrived, it had "@ + decimal(paket_u8_len as nat)
            + " bytes. Such paket will be dropped."@,
        ExtractorReport::Unusual(unusual).shown() == unusual.shown(),
        unusual.shown() == "Unusual None returned from '"@ + unusual.entity@
            + "' in 'message_paketer'."@,
        no_helo.shown() == "Could not receive the 'helo' message from the client. The cause was: [["@
            + no_helo.cause@ + "]]"@,
        err.shown(address, cause) == "The client_handler with id "@ + decimal(err.id as nat)
            + " handling the address "@ + address + " failed. The cause was: "@ + cause,
{
}

// ---------------------------------------------------------------------------------------------
// Reading pakets
// ---------------------------------------------------------------------------------------------
/// Bytes are readable exactly if they start with `0xC0`, end with `0xC1`, and what stands between
/// is UTF-8; the text is then the one that this encodes. Else the first of these that fails is the
/// error, with all the bytes.
pub proof fn law_text_of_bytes(candidate: Seq<u8>, err: MsgFromPaketError)
    ensures
        paket_text(candidate) matches Some(text) ==> {
            &&& candidate.len() >= 2
            &&& candidate[0] == 0xC0
            &&& candidate[candidate.len() - 1] == 0xC1
            &&& valid_utf8(candidate.subrange(1, candidate.len() - 1))
            &&& text == decode_utf8(candidate.subrange(1, candidate.len() - 1))
        },
        candidate.len() >= 2 && candidate[0] == 0xC0 && candidate[candidate.len() - 1] == 0xC1
            && valid_utf8(candidate.subrange(1, candidate.len() - 1)) ==> paket_text(
            candidate,
        ) is Some,
        paket_text(candidate) is None && is_paket_error(candidate, err) ==> match err {
            MsgFromPaketError::EmptyPaket => candidate.len() == 0,
            MsgFromPaketError::NoInitDelimiter { candidate: bytes } => {
                &&& bytes@ == candidate
                &&& candidate.len() > 0
                &&& candidate[0] != 0xC0
            },
            MsgFromPaketError::NoEndDelimiter { candidate: bytes } => {
                &&& bytes@ == candidate
                &&& candidate.len() > 0
                &&& candidate[0] == 0xC0
                &&& candidate[candidate.len() - 1] != 0xC1
            },
            MsgFromPaketError::StringFromUtf8(failure) => {
                &&& candidate.len() >= 2
                &&& candidate[0] == 0xC0
                &&& candidate[candidate.len() - 1] == 0xC1
                &&& failure.bytes@ == candidate.subrange(1, candidate.len() - 1)
                &&& !valid_utf8(failure.bytes@)
            },
            MsgFromPaketError::SerdeJson { .. } => false,
            MsgFromPaketError::TextValidity(_) => false,
        },
{
}

/// A reply of the parser with two texts that are not too long gives the message with these texts,
/// whatever they are. A too long username is refused, else a too long content is, with the whole
/// text; and where the parser failed, its report comes back with the text that was parsed.
pub proof fn law_reply_of_the_parser(
    text: Seq<char>,
    reply: Result<(String, String), JsonError>,
    r: Result<Message, MsgFromPaketError>,
)
    requires
        is_parsed_outcome(text, reply, r),
    ensures
        reply matches Ok(fields) ==> fields.0@.len() <= 32 && fields.1@.len() <= 5000 ==> {
            &&& r matches Ok(message)
            &&& message@.username == fields.0@
            &&& message@.content == fields.1@
        },
        reply matches Ok(fields) ==> fields.0@.len() > 32 ==> {
            &&& r matches Err(MsgFromPaketError::TextValidity(err))
            &&& is_about(err, "username"@, fields.0@, 32)
        },
        reply matches Ok(fields) ==> fields.0@.len() <= 32 && fields.1@.len() > 5000 ==> {
            &&& r matches Err(MsgFromPaketError::TextValidity(err))
            &&& is_about(err, "content"@, fields.1@, 5000)
        },
        reply matches Err(err) ==> {
            &&& r matches Err(
                MsgFromPaketError::SerdeJson {
                    dispaketed_candidate,
                    category,
                    io_error_kind,
                    line,
                    column,
                },
            )
            &&& dispaketed_candidate@ == text
            &&& category == err.category
            &&& io_error_kind == err.io_error_kind
            &&& line == err.line
            &&& column == err.column
        },
{
}

/// A message comes out of bytes only as the parser read it there: the bytes stand between the two
/// delimiters and are UTF-8, and the parser replied to exactly this text with the two texts of the
/// message.
pub proof fn law_messages_are_read_from_their_bytes<
    F: FnOnce(&str) -> Result<(String, String), JsonError>,
>(candidate: Seq<u8>, parse: F, r: Result<Message, MsgFromPaketError>)
    requires
        is_read_by(candidate, parse, r),
        r is Ok,
    ensures
        candidate.len() >= 2,
        candidate[0] == 0xC0,
        candidate[candidate.len() - 1] == 0xC1,
        exists|text: &str, reply: Result<(String, String), JsonError>|
            {
                &&& #[trigger] parse.ensures((text,), reply)
                &&& text@ == decode_utf8(candidate.subrange(1, candidate.len() - 1))
                &&& reply matches Ok(fields)
                &&& fields.0@ == r->Ok_0@.username
                &&& fields.1@ == r->Ok_0@.content
            },
        r->Ok_0@.username.len() <= 32,
        r->Ok_0@.content.len() <= 5000,
{
    let (text, reply) = choose|text: &str, reply: Result<(String, String), JsonError>|
        {
            &&& Some(text@) == paket_text(candidate)
            &&& #[trigger] parse.ensures((text,), reply)
            &&& is_paket_outcome(candidate, reply, r)
        };
    assert(parse.ensures((text,), reply));
}

// ---------------------------------------------------------------------------------------------
// Announcements
// ---------------------------------------------------------------------------------------------
/// The content of an announcement is the whole username, and behind it what became of the user.
pub proof fn law_announcement(username: Seq<char>)
    ensures
        status_text(username, UserStatus::Present).take(username.len() as int) == username,
        status_text(username, UserStatus::Present).skip(username.len() as int)
            == " just joined the chat"@,
        status_text(username, UserStatus::Absent).take(username.len() as int) == username,
        status_text(username, UserStatus::Absent).skip(username.len() as int)
            == " just left the chat"@,
{
    let joined = status_text(username, UserStatus::Present);
    let left = status_text(username, UserStatus::Absent);
    assert(joined.take(username.len() as int) =~= username);
    assert(joined.skip(username.len() as int) =~= " just joined the chat"@);
    assert(left.take(username.len() as int) =~= username);
    assert(left.skip(username.len() as int) =~= " just left the chat"@);
}

/// Announcements about different users differ, and so do those that a user joined and that they
/// left.
pub proof fn law_announcements_differ(username: Seq<char>, other: Seq<char>, status: UserStatus)
    ensures
        status_text(username, status) == status_text(other, status) ==> username == other,
        status_text(username, UserStatus::Present) != status_text(username, UserStatus::Absent),
{
    law_announcement(username);
    law_announcement(other);
    reveal_strlit(" just joined the chat");
    reveal_strlit(" just left the chat");
    if status_text(username, status) == status_text(other, status) {
        let tail = match status {
            UserStatus::Present => " just joined the chat"@,
            UserStatus::Absent => " just left the chat"@,
        };
        let whole = status_text(username, status);
        assert(whole.skip(username.len() as int).len() == tail.len());
        assert(whole.skip(other.len() as int).len() == tail.len());
    }
    let joined = status_text(username, UserStatus::Present);
    let left = status_text(username, UserStatus::Absent);
    assert(joined.skip(username.len() as int).len() == 21);
    assert(left.skip(username.len() as int).len() == 19);
}

/// A greeting bears the username and says `helo`; the message that ends a connection is one of the
/// server and says so.
pub proof fn law_fixed_messages(username: Seq<char>)
    ensures
        helo_message(username).username == username,
        helo_message(username).content == seq!['h', 'e', 'l', 'o'],
        interrupt_message().username == "SERVER"@,
        interrupt_message().content == "The SERVER is shutting down this connection."@,
{
    reveal_strlit("helo");
    assert("helo"@ =~= seq!['h', 'e', 'l', 'o']);
}

// ---------------------------------------------------------------------------------------------
// Clients of the server
// ---------------------------------------------------------------------------------------------
/// A client is taken up exactly if its first paket gave a message with the content `helo`. It is
/// known by the identifier and the username of that message, and the dispatch that comes with it
/// bears the identifier and tells that this user joined. Else the cause is named.
pub proof fn law_only_helo_is_a_greeting(
    userid: usize,
    first: FirstPaket,
    outcome: Result<(ClientReader, Dispatch), NoHelo>,
)
    requires
        is_greet_outcome(userid, first, outcome),
    ensures
        outcome is Ok <==> (first matches Some(Ok(message)) && message@.content == seq![
            'h',
            'e',
            'l',
            'o',
        ]),
        outcome matches Ok((client, welcome)) ==> {
            &&& first matches Some(Ok(message))
            &&& client@.userid == userid
            &&& client@.username == message@.username
            &&& welcome@.userid == userid
            &&& welcome@.bytes == paket_bytes(
                MessageView {
                    username: "SERVER"@,
                    content: message@.username + " just joined the chat"@,
                },
            )
        },
        outcome matches Err(no_helo) ==> no_helo.cause@ == match first {
            None => "The channel receiving the extracted pakets is closed."@,
            Some(Err(_)) => "The first paket received could not be converted to a message."@,
            Some(Ok(_)) => {
                "The content of the first message was not 'helo' as it was supposed to be."@
            },
        },
{
    reveal_strlit("helo");
    assert("helo"@ =~= seq!['h', 'e', 'l', 'o']);
}

/// Every paket of a client that has greeted is sent on: with the identifier of the client, and with
/// exactly the bytes that came, whatever they are. Where there is none, nothing is sent. Only when
/// the client is cancelled the others are told that this user left, and the server stops.
pub proof fn law_every_paket_is_sent_on(
    client: ClientReaderView,
    event: ClientEvent,
    action: ClientAction,
)
    requires
        is_client_step(client, event, action),
    ensures
        match event {
            ClientEvent::Paket(Some(bytes)) => {
                &&& action matches ClientAction::Send(dispatch)
                &&& dispatch@.userid == client.userid
                &&& dispatch@.bytes == bytes@
            },
            ClientEvent::Paket(None) => action is Wait,
            ClientEvent::Cancelled => {
                &&& action matches ClientAction::SendAndStop(dispatch)
                &&& dispatch@.userid == client.userid
                &&& dispatch@.bytes == paket_bytes(
                    MessageView {
                        username: "SERVER"@,
                        content: client.username + " just left the chat"@,
                    },
                )
            },
        },
{
}

/// The bytes of the pakets that arrived, in order.
pub open spec fn arrived(events: Seq<ClientEvent>) -> Seq<Seq<u8>>
    decreases events.len(),
{
    if events.len() == 0 {
        seq![]
    } else {
        arrived(events.drop_last()) + match events.last() {
            ClientEvent::Paket(Some(bytes)) => seq![bytes@],
            _ => seq![],
        }
    }
}

/// What the actions of the server send on, in order.
pub open spec fn sent_on(actions: Seq<ClientAction>) -> Seq<DispatchView>
    decreases actions.len(),
{
    if actions.len() == 0 {
        seq![]
    } else {
        sent_on(actions.drop_last()) + match actions.last() {
            ClientAction::Send(dispatch) => seq![dispatch@],
            _ => seq![],
        }
    }
}

/// Over a whole connection the pakets that arrived are sent on: all of them, unchanged and in
/// order, and with the identifier of the client.
pub proof fn law_all_pakets_are_sent_on(
    client: ClientReaderView,
    events: Seq<ClientEvent>,
    actions: Seq<ClientAction>,
)
    requires
        actions.len() == events.len(),
        forall|i: int|
            0 <= i < events.len() ==> is_client_step(client, events[i], #[trigger] actions[i]),
    ensures
        sent_on(actions).len() == arrived(events).len(),
        forall|k: int|
            0 <= k < arrived(events).len() ==> {
                &&& (#[trigger] sent_on(actions)[k]).bytes == arrived(events)[k]
                &&& sent_on(actions)[k].userid == client.userid
            },
    decreases events.len(),
{
    if events.len() > 0 {
        let earlier = actions.drop_last();
        assert forall|i: int| 0 <= i < earlier.len() implies is_client_step(
            client,
            events.drop_last()[i],
            #[trigger] earlier[i],
        ) by {
            assert(earlier[i] == actions[i]);
        }
        law_all_pakets_are_sent_on(client, events.drop_last(), earlier);
        let n = events.len() - 1;
        assert(is_client_step(client, events[n], actions[n]));
        law_every_paket_is_sent_on(client, events[n], actions[n]);
    }
}

/// The handling of a client ends well exactly if the first of its tasks to finish did. Else the
/// error bears the identifier and the address of the client, and the error of the task or of the
/// wait for it as the cause.
pub proof fn law_end_of_a_handler<A, E, J>(
    userid: usize,
    address: A,
    first_finished: Result<Result<(), E>, J>,
)
    ensures
        handler_outcome(userid, address, first_finished) is Ok <==> (first_finished matches Ok(
            Ok(_),
        )),
        handler_outcome(userid, address, first_finished) matches Err(err) ==> {
            &&& err.id == userid
            &&& err.address == address
            &&& match first_finished {
                Ok(task) => task matches Err(cause) && err.cause == ClientHandlerErrorCause::<
                    E,
                    J,
                >::Task(cause),
                Err(cause) => err.cause == ClientHandlerErrorCause::<E, J>::Join(cause),
            }
        },
{
}

/// An accepted connection is served exactly if fewer than `MAX_NUM_USERS` clients are connected and
/// an identifier is left, under the next identifier, and then one more has been given away. Else
/// the manager stops. A failed one is reported, and nothing else is. Neither gives an identifier
/// away.
pub proof fn law_who_is_served(
    before: int,
    event: AcceptEvent,
    after: int,
    action: AcceptAction,
)
    requires
        is_accept_step(before, event, after, action),
    ensures
        match event {
            AcceptEvent::Failed => action is Report && after == before,
            AcceptEvent::Accepted { connected } => if connected < MAX_NUM_USERS && before + 1
                < usize::MAX {
                &&& action matches AcceptAction::Serve { userid }
                &&& userid == before + 1
                &&& after == before + 1
            } else {
                action is Stop && after == before
            },
        },
{
}

// ---------------------------------------------------------------------------------------------
// Extraction
// ---------------------------------------------------------------------------------------------
/// A paket is forwarded if it has at most `Message::MAX_PAKET_U8_LEN` bytes, and left out else,
/// independently of the others and in the same order.
pub proof fn law_fitting(first: Seq<Seq<u8>>, paket: Seq<u8>, second: Seq<Seq<u8>>)
    ensures
        fitting(Seq::empty()) == Seq::<Seq<u8>>::empty(),
        too_long(Seq::empty()) == Seq::<Seq<u8>>::empty(),
        paket.len() <= Message::MAX_PAKET_U8_LEN ==> fitting(seq![paket]) == seq![paket]
            && too_long(seq![paket]) == Seq::<Seq<u8>>::empty(),
        paket.len() > Message::MAX_PAKET_U8_LEN ==> fitting(seq![paket]) == Seq::<
            Seq<u8>,
        >::empty() && too_long(seq![paket]) == seq![paket],
        fitting(first + second) == fitting(first) + fitting(second),
        too_long(first + second) == too_long(first) + too_long(second),
{
    let fits = |p: Seq<u8>| !is_too_long(p);
    let exceeds = |p: Seq<u8>| is_too_long(p);
    Seq::filter_distributes_over_add(first, second, fits);
    Seq::filter_distributes_over_add(first, second, exceeds);
    let none = Seq::<Seq<u8>>::empty();
    assert(none.filter(fits) =~= none);
    assert(none.filter(exceeds) =~= none);
    assert(seq![paket] =~= none.push(paket));
    none.lemma_filter_push(paket, fits);
    none.lemma_filter_push(paket, exceeds);
    assert(none.push(paket) =~= seq![paket]);
}

/// The extraction ends where it is cancelled, where the read fails, and where nothing was read, and
/// then the state stays. It goes on with whatever was read.
pub proof fn law_ends_of_the_extraction(
    before: ExtractorView,
    event: ReadEvent,
    after: ExtractorView,
    action: ExtractorAction,
)
    requires
        is_extractor_step(before, event, after, action),
    ensures
        match event {
            ReadEvent::Cancelled => action is StopCancelled && after == before,
            ReadEvent::Failed => action is StopFailed && after == before,
            ReadEvent::Read { buffer } => if buffer@.len() == 0 {
                action is StopInterrupted && after == before
            } else {
                action is Continue
            },
        },
{
}

/// What the extractor forwards of all that is read.
pub open spec fn forwarded_by(actions: Seq<ExtractorAction>) -> Seq<Seq<u8>>
    decreases actions.len(),
{
    if actions.len() == 0 {
        seq![]
    } else {
        forwarded_by(actions.drop_last()) + match actions.last() {
            ExtractorAction::Continue(processed) => Seq::new(
                processed.pakets@.len(),
                |i: int| processed.pakets@[i]@,
            ),
            _ => seq![],
        }
    }
}

/// All that is read, one buffer behind the other.
pub open spec fn read_in(events: Seq<ReadEvent>) -> Seq<u8>
    decreases events.len(),
{
    if events.len() == 0 {
        seq![]
    } else {
        read_in(events.drop_last()) + match events.last() {
            ReadEvent::Read { buffer } => buffer@,
            _ => seq![],
        }
    }
}

/// The steps of an extractor from its beginning forward the pakets into which all that was read is
/// cut, in order and without the too long ones, however it was divided. What is kept is the
/// fragment behind them, unless it is too long.
pub proof fn law_steps_of_the_extractor(
    states: Seq<ExtractorView>,
    events: Seq<ReadEvent>,
    actions: Seq<ExtractorAction>,
)
    requires
        states.len() == events.len() + 1,
        actions.len() == events.len(),
        states[0].previous_fragment.len() == 0 && !states[0].reinitialising,
        forall|i: int|
            0 <= i < events.len() ==> is_extractor_step(
                states[i],
                events[i],
                states[i + 1],
                #[trigger] actions[i],
            ),
    ensures
        forwarded_by(actions) == pakets_of(read_in(events)).filter(
            |paket: Seq<u8>| paket.len() <= Message::MAX_PAKET_U8_LEN,
        ),
        states.last().reinitialising <==> fragment_of(read_in(events)).len()
            > Message::MAX_PAKET_U8_LEN,
        !states.last().reinitialising ==> states.last().previous_fragment == fragment_of(
            read_in(events),
        ),
        states.last().reinitialising ==> states.last().previous_fragment.len() == 0,
    decreases events.len(),
{
    let short = |paket: Seq<u8>| paket.len() <= Message::MAX_PAKET_U8_LEN;
    if events.len() == 0 {
        assert(pakets_of(read_in(events)).filter(short) =~= Seq::empty());
        assert(states.last().previous_fragment =~= Seq::empty());
    } else {
        let n = events.len() - 1;
        let earlier = actions.drop_last();
        assert forall|i: int| 0 <= i < earlier.len() implies is_extractor_step(
            states.drop_last()[i],
            events.drop_last()[i],
            states.drop_last()[i + 1],
            #[trigger] earlier[i],
        ) by {
            assert(earlier[i] == actions[i]);
        }
        law_steps_of_the_extractor(states.drop_last(), events.drop_last(), earlier);
        assert(is_extractor_step(states[n], events[n], states[n + 1], actions[n]));
        let bytes = read_in(events.drop_last());
        lemma_short_pakets(pakets_of(bytes));
        lemma_short_pakets(pakets_of(read_in(events)));
        match events[n] {
            ReadEvent::Read { buffer } => {
                if buffer@.len() == 0 {
                    assert(bytes + buffer@ =~= bytes);
                } else {
                    assert(states[n] =~= ExtractorView::of_fragment(fragment_of(bytes)));
                    lemma_one_more_buffer(bytes, buffer@);
                    let processed = actions[n]->Continue_0;
                    assert(Seq::new(processed.pakets@.len(), |i: int| processed.pakets@[i]@)
                        =~= processed.forwarded());
                }
            },
            _ => {
                assert(read_in(events) =~= bytes);
            },
        }
        assert(forwarded_by(actions) =~= pakets_of(read_in(events)).filter(short));
    }
}

/// The pakets that fit are those that are short enough.
proof fn lemma_short_pakets(pakets: Seq<Seq<u8>>)
    ensures
        fitting(pakets) == pakets.filter(
            |paket: Seq<u8>| paket.len() <= Message::MAX_PAKET_U8_LEN,
        ),
    decreases pakets.len(),
{
    if pakets.len() > 0 {
        lemma_short_pakets(pakets.drop_last());
    }
    reveal(Seq::filter);
}

/// What one read gives while no paket is being dropped, where it brings no end delimiter: nothing
/// is forwarded, and the bytes are appended to what is kept; if this is too long, it is reported
/// with its length, and dropping begins.
pub proof fn law_read_without_end(
    state: ExtractorView,
    buffer: Seq<u8>,
    reports: Seq<ExtractorReport>,
)
    requires
        state.well_formed(),
        !state.reinitialising,
        buffer.len() > 0,
        forall|i: int| 0 <= i < buffer.len() ==> buffer[i] != 0xC1,
        state.previous_fragment.len() + buffer.len() <= usize::MAX,
        are_reports_on_read(state, buffer, reports),
    ensures
        forwarded_on_read(state, buffer) == Seq::<Seq<u8>>::empty(),
        state.previous_fragment.len() + buffer.len() <= Message::MAX_PAKET_U8_LEN ==> {
            &&& reports.len() == 0
            &&& after_read(state, buffer) == ExtractorView {
                previous_fragment: state.previous_fragment + buffer,
                reinitialising: false,
            }
        },
        state.previous_fragment.len() + buffer.len() > Message::MAX_PAKET_U8_LEN ==> {
            &&& reports.len() == 1
            &&& reports[0] matches ExtractorReport::TooLongPaket { paket_u8_len }
            &&& paket_u8_len == state.previous_fragment.len() + buffer.len()
            &&& after_read(state, buffer) == ExtractorView {
                previous_fragment: Seq::empty(),
                reinitialising: true,
            }
        },
{
    let all = state.previous_fragment + buffer;
    assert forall|i: int| 0 <= i < all.len() implies all[i] != Message::PAKET_END_U8 by {
        if i < state.previous_fragment.len() {
            assert(state.previous_fragment.contains(state.previous_fragment[i]));
        }
    }
    lemma_cut_without_end(all);
    law_fitting(Seq::empty(), all, Seq::empty());
    assert(Seq::<Seq<u8>>::empty().push(all) =~= seq![all]);
}

/// A buffer without bytes changes and forwards nothing, and is reported as unusual.
pub proof fn law_empty_buffer(state: ExtractorView, reports: Seq<ExtractorReport>)
    requires
        state.well_formed(),
        !state.reinitialising,
        are_reports_on_read(state, Seq::empty(), reports),
    ensures
        after_read(state, Seq::empty()) == state,
        forwarded_on_read(state, Seq::empty()) == Seq::<Seq<u8>>::empty(),
        reports.len() == 1,
        reports[0] matches ExtractorReport::Unusual(unusual) && unusual.entity@
            == "actual_fragments"@,
{
    assert(state.previous_fragment + Seq::<u8>::empty() =~= state.previous_fragment);
    lemma_cut_without_end(state.previous_fragment);
    law_fitting(Seq::empty(), Seq::empty(), Seq::empty());
}

/// The reports of a read, while no paket is being dropped, are about the too long ones among its
/// pakets and its fragment, each with its length, in order.
pub proof fn law_reports_tell_the_lengths(
    state: ExtractorView,
    buffer: Seq<u8>,
    reports: Seq<ExtractorReport>,
    i: int,
)
    requires
        !state.reinitialising,
        buffer.len() > 0,
        are_reports_on_read(state, buffer, reports),
        0 <= i < reports.len(),
        state.previous_fragment.len() + buffer.len() <= usize::MAX,
    ensures
        ({
            let all = state.previous_fragment + buffer;
            let dropped = too_long(pakets_of(all).push(fragment_of(all)));
            &&& reports.len() == dropped.len()
            &&& reports[i] == ExtractorReport::TooLongPaket {
                paket_u8_len: dropped[i].len() as usize,
            }
            &&& dropped[i].len() > Message::MAX_PAKET_U8_LEN
        }),
{
    let all = state.previous_fragment + buffer;
    pakets_of(all).push(fragment_of(all)).lemma_filter_pred(
        |p: Seq<u8>| is_too_long(p),
        i,
    );
}

/// While a paket is being dropped, a read without an end delimiter changes, forwards and reports
/// nothing. One with an end delimiter does what a read of the bytes behind the first one does at the
/// beginning.
pub proof fn law_read_while_dropping(
    before: Seq<u8>,
    behind: Seq<u8>,
    reports: Seq<ExtractorReport>,
)
    requires
        forall|i: int| 0 <= i < before.len() ==> before[i] != 0xC1,
    ensures
        ({
            let dropping = ExtractorView { previous_fragment: Seq::empty(), reinitialising: true };
            let nothing = ExtractorView { previous_fragment: Seq::empty(), reinitialising: false };
            let buffer = before.push(0xC1) + behind;
            &&& after_read(dropping, before) == dropping
            &&& forwarded_on_read(dropping, before) == Seq::<Seq<u8>>::empty()
            &&& are_reports_on_read(dropping, before, reports) ==> reports.len() == 0
            &&& after_read(dropping, buffer) == after_read(nothing, behind)
            &&& forwarded_on_read(dropping, buffer) == forwarded_on_read(nothing, behind)
            &&& behind.len() > 0 && are_reports_on_read(dropping, buffer, reports)
                ==> are_reports_on_read(nothing, behind, reports)
            &&& behind.len() == 0 && are_reports_on_read(dropping, buffer, reports)
                ==> reports.len() == 0
        }),
{
    let buffer = before.push(0xC1) + behind;
    assert(buffer[before.len() as int] == 0xC1);
    assert(has_end(buffer));
    lemma_behind_first_end(before, behind);
    assert(Seq::<u8>::empty() + behind =~= behind);
}

/// What stands behind the first end delimiter.
proof fn lemma_behind_first_end(before: Seq<u8>, behind: Seq<u8>)
    requires
        forall|i: int| 0 <= i < before.len() ==> before[i] != 0xC1,
    ensures
        after_first_end(before.push(0xC1) + behind) == behind,
    decreases before.len(),
{
    let all = before.push(0xC1) + behind;
    if before.len() == 0 {
        assert(all.drop_first() =~= behind);
    } else {
        assert(all.drop_first() =~= before.drop_first().push(0xC1) + behind);
        lemma_behind_first_end(before.drop_first(), behind);
    }
}

/// The bytes are cut behind each `0xC1`, and nowhere else, without losing, adding or moving one.
pub proof fn law_cut_behind_each_end(bytes: Seq<u8>, k: int)
    ensures
        pakets_of(bytes).flatten() + fragment_of(bytes) == bytes,
        0 <= k < pakets_of(bytes).len() ==> {
            let paket = pakets_of(bytes)[k];
            &&& paket.len() > 0
            &&& paket[paket.len() - 1] == 0xC1
            &&& forall|i: int| 0 <= i < paket.len() - 1 ==> #[trigger] paket[i] != 0xC1
        },
        forall|i: int|
            0 <= i < fragment_of(bytes).len() ==> #[trigger] fragment_of(bytes)[i] != 0xC1,
{
    law_cut(bytes);
    if 0 <= k < pakets_of(bytes).len() {
        let paket = pakets_of(bytes)[k];
        assert(ends_once(paket));
        assert forall|i: int| 0 <= i < paket.len() - 1 implies #[trigger] paket[i] != 0xC1 by {
            assert(paket.drop_last().contains(paket.drop_last()[i]));
        }
    }
    assert forall|i: int| 0 <= i < fragment_of(bytes).len() implies #[trigger] fragment_of(
        bytes,
    )[i] != 0xC1 by {
        assert(fragment_of(bytes).contains(fragment_of(bytes)[i]));
    }
}

// ---------------------------------------------------------------------------------------------
// What a user types
// ---------------------------------------------------------------------------------------------
/// One newline at the end is taken away, and nothing else is.
pub proof fn law_newline(bytes: Seq<u8>)
    ensures
        ends_line(bytes.push(0x0A)),
        without_newline(bytes.push(0x0A)) == bytes,
        completes_line(bytes.push(0x0A)),
        bytes.len() > 0 && bytes[bytes.len() - 1] != 0x0A ==> {
            &&& !ends_line(bytes)
            &&& !completes_line(bytes)
            &&& without_newline(bytes) == bytes
        },
        !ends_line(Seq::empty()),
        completes_line(Seq::empty()),
        without_newline(Seq::empty()) == Seq::<u8>::empty(),
{
    assert(bytes.push(0x0A).drop_last() =~= bytes);
}

/// What is sent for typed bytes carries their whole text: it is cut into the pakets of messages of
/// the user, with nothing left, and the contents of these messages, one after the other, are the
/// text. None of them is empty or too long. Nothing is sent where nothing was typed, or where it is
/// no UTF-8, and then the failure is about these bytes.
pub proof fn law_prompt_is_sent_whole(
    username: Seq<char>,
    prompt: Seq<u8>,
    r: PromptOutcome,
) -> (messages: Seq<MessageView>)
    requires
        is_prompt_outcome(username, prompt, r),
    ensures
        prompt.len() == 0 ==> r is Empty,
        prompt.len() > 0 && !valid_utf8(prompt) ==> (r matches PromptOutcome::NotUtf8(failure)
            && failure.bytes@ == prompt),
        prompt.len() > 0 && valid_utf8(prompt) ==> {
            &&& r matches PromptOutcome::Pakets(bytes)
            &&& pakets_of(bytes@) == messages.map_values(
                |message: MessageView| paket_bytes(message),
            )
            &&& fragment_of(bytes@) == Seq::<u8>::empty()
            &&& contents(messages) == decode_utf8(prompt)
            &&& forall|i: int|
                0 <= i < messages.len() ==> {
                    &&& (#[trigger] messages[i]).username == username
                    &&& 0 < messages[i].content.len() <= 5000
                }
            &&& forall|i: int|
                0 <= i < messages.len() - 1 ==> (#[trigger] messages[i]).content.len() == 5000
        },
{
    let text = decode_utf8(prompt);
    let messages = chunked(username, text);
    law_stream_is_cut_into_its_pakets(messages);
    law_chunks_carry_the_text(username, text);
    assert forall|i: int| 0 <= i < messages.len() implies {
        &&& (#[trigger] messages[i]).username == username
        &&& 0 < messages[i].content.len() <= 5000
        &&& i < messages.len() - 1 ==> messages[i].content.len() == 5000
    } by {
        law_chunks_valid(username, text, i);
    }
    messages
}

/// What is sent for a line that was typed carries the whole text in front of the newline, and what
/// is sent for a chunk without a newline at its end carries all of it.
pub proof fn law_line_is_sent_whole(
    username: Seq<char>,
    line: Seq<u8>,
    r: PromptOutcome,
) -> (messages: Seq<MessageView>)
    requires
        ({
            ||| is_chunk_outcome(username, line.push(0x0A), (r, true))
            ||| line.len() > 0 && line[line.len() - 1] != 0x0A && is_chunk_outcome(
                username,
                line,
                (r, false),
            )
        }),
    ensures
        line.len() == 0 ==> r is Empty,
        line.len() > 0 && !valid_utf8(line) ==> (r matches PromptOutcome::NotUtf8(failure)
            && failure.bytes@ == line),
        line.len() > 0 && valid_utf8(line) ==> {
            &&& r matches PromptOutcome::Pakets(bytes)
            &&& pakets_of(bytes@) == messages.map_values(
                |message: MessageView| paket_bytes(message),
            )
            &&& fragment_of(bytes@) == Seq::<u8>::empty()
            &&& contents(messages) == decode_utf8(line)
            &&& forall|i: int|
                0 <= i < messages.len() ==> (#[trigger] messages[i]).username == username
        },
{
    law_newline(line);
    law_prompt_is_sent_whole(username, line, r)
}

/// A chunk ends a line exactly if its last byte is a newline.
pub proof fn law_ends_of_lines(username: Seq<char>, chunk: Seq<u8>, r: (PromptOutcome, bool))
    requires
        is_chunk_outcome(username, chunk, r),
    ensures
        r.1 <==> chunk.len() > 0 && chunk[chunk.len() - 1] == 0x0A,
{
}

/// What a client does after each event, and what it then waits for. A line is complete with a
/// newline at the end of what was read, or at the end of the input. It is then sent if it is text
/// and not empty; else the next prompt is shown, with a report if it is no text.
pub proof fn law_what_a_client_does_next(
    before: StdinView,
    event: StdinEvent,
    after: StdinView,
    action: StdinAction,
)
    requires
        fits(before.phase, event),
        is_stdin_step(before, event, after, action),
    ensures
        after.username == before.username,
        match event {
            StdinEvent::PromptShown => action is Read && after.prompt.len() == 0,
            StdinEvent::PromptNotShown => action == (StdinAction::ShowPrompt { report: None }),
            StdinEvent::Cancelled => action is Stop,
            StdinEvent::ReadFailed => action is Fail,
            StdinEvent::Written => action == (StdinAction::ShowPrompt { report: None }),
            StdinEvent::WriteFailed => action is Fail,
            StdinEvent::Read { chunk } => if chunk@.len() > 0 && chunk@[chunk@.len() - 1] != 0x0A {
                action is Read && after.prompt == before.prompt + chunk@
            } else {
                let line = if chunk@.len() == 0 {
                    before.prompt
                } else {
                    before.prompt + chunk@.take(chunk@.len() - 1)
                };
                &&& after.prompt.len() == 0
                &&& line.len() == 0 ==> action == (StdinAction::ShowPrompt { report: None })
                &&& line.len() > 0 && !valid_utf8(line) ==> {
                    &&& action matches StdinAction::ShowPrompt { report: Some(failure) }
                    &&& failure.bytes@ == line
                }
                &&& line.len() > 0 && valid_utf8(line) ==> {
                    &&& action matches StdinAction::Write { pakets }
                    &&& pakets@ == stream_of(chunked(before.username, decode_utf8(line)))
                }
            },
        },
        action is ShowPrompt ==> {
            &&& fits(after.phase, StdinEvent::PromptShown)
            &&& fits(after.phase, StdinEvent::PromptNotShown)
            &&& fits(after.phase, StdinEvent::Cancelled)
        },
        action is Read ==> {
            &&& fits(after.phase, StdinEvent::ReadFailed)
            &&& forall|chunk: Vec<u8>| #[trigger] fits(after.phase, StdinEvent::Read { chunk })
        },
        action is Write ==> {
            &&& fits(after.phase, StdinEvent::Written)
            &&& fits(after.phase, StdinEvent::WriteFailed)
        },
{
    if let StdinEvent::Read { chunk } = event {
        if chunk@.len() == 0 {
            law_newline(Seq::empty());
            assert(chunk@ =~= Seq::empty());
            assert(before.prompt + chunk@ =~= before.prompt);
        } else if chunk@[chunk@.len() - 1] == 0x0A {
            assert(chunk@.take(chunk@.len() - 1).push(0x0A) =~= chunk@);
            law_newline(chunk@.take(chunk@.len() - 1));
        } else {
            law_newline(chunk@);
        }
    }
}

} // verus!
