//! What holds of the library as a whole.
use crate::constant::MAX_NUM_USERS;
use crate::dispatch::{delivered, is_dispatch_read_by, Dispatch, DispatchView};
use crate::error::{JsonError, MsgFromPaketError};
use crate::extractor::{
    after_first_end, after_read, are_reports_on_read, cut, ends_once, fitting, forwarded_on_read,
    fragment_of, has_end, is_too_long, lemma_cut_without_end, lemma_fragment_without_end,
    pakets_of, too_long, ExtractorReport, ExtractorView,
};
use crate::json::{
    hex_escaped_count, is_hex_escaped, json_char, lemma_json_char_width, lemma_json_chars_width,
    lemma_message_json_injective, lemma_message_json_width, message_json,
};
use crate::message::{
    chunk, chunk_count, chunked, is_paket_outcome, is_read_by, paket_body, paket_bytes,
    paket_text, status_text, stream_of, Message, MessageView, UserStatus,
};
use crate::prompt::{
    completes_line, ends_line, is_read_step, is_stdin_step, without_newline, StdinAction,
    StdinEvent, StdinView,
};
use crate::server::{
    client_dispatch, is_accept_step, is_client_step, is_greet_outcome, is_greeting,
    status_dispatch, userid_of, AcceptAction, AcceptEvent, ClientAction, ClientEvent,
    ClientReader, ClientReaderView, FirstPaket, NoHelo,
};
use crate::text::{is_utf8_failure, law_delimiters_never_in_utf8, Utf8Failure};
use crate::username::Username;
use vstd::prelude::*;
use vstd::utf8::{
    decode_utf8, encode_utf8, encode_utf8_decode_utf8, encode_utf8_valid_utf8, valid_utf8,
};

verus! {

// ---------------------------------------------------------------------------------------------
// Pakets
// ---------------------------------------------------------------------------------------------
/// A paket starts with the init delimiter, ends with the end delimiter, and holds neither of them
/// anywhere else.
pub proof fn law_paket_delimiters(message: MessageView)
    ensures
        paket_bytes(message).first() == Message::PAKET_INIT_U8,
        paket_bytes(message).last() == Message::PAKET_END_U8,
        !paket_body(paket_bytes(message)).contains(Message::PAKET_INIT_U8),
        !paket_body(paket_bytes(message)).contains(Message::PAKET_END_U8),
{
    let bytes = encode_utf8(message_json(message.username, message.content));
    assert(paket_body(paket_bytes(message)) =~= bytes);
    law_delimiters_never_in_utf8(message_json(message.username, message.content));
}

/// The text of a message's paket is the JSON text of the message.
pub proof fn law_paket_text(message: MessageView)
    ensures
        paket_text(paket_bytes(message)) == Some(
            message_json(message.username, message.content),
        ),
{
    let text = message_json(message.username, message.content);
    assert(paket_body(paket_bytes(message)) =~= encode_utf8(text));
    encode_utf8_valid_utf8(text);
    encode_utf8_decode_utf8(text);
}

/// Whether the parser reads back what was written: its reply to the JSON text of the message has
/// this text.
pub open spec fn reads_back<F: FnOnce(&str) -> Result<(String, String), JsonError>>(
    parse: F,
    message: MessageView,
) -> bool {
    forall|text: &str, reply: Result<(String, String), JsonError>| #[trigger]
        parse.ensures((text,), reply) && text@ == message_json(message.username, message.content)
            ==> {
            &&& reply matches Ok(fields)
            &&& message_json(fields.0@, fields.1@) == text@
        }
}

/// A message comes back from its paket, if the parser reads back what was written.
pub proof fn law_message_paket_message<F: FnOnce(&str) -> Result<(String, String), JsonError>>(
    message: MessageView,
    parse: F,
    r: Result<Message, MsgFromPaketError>,
)
    requires
        message.valid(),
        reads_back(parse, message),
        is_read_by(paket_bytes(message), parse, r),
    ensures
        r matches Ok(back) && back@ == message,
{
    law_paket_text(message);
    let (text, reply) = choose|text: &str, reply: Result<(String, String), JsonError>|
        {
            &&& text@ == message_json(message.username, message.content)
            &&& #[trigger] parse.ensures((text,), reply)
            &&& is_paket_outcome(paket_bytes(message), reply, r)
        };
    let fields = reply->Ok_0;
    lemma_message_json_injective(fields.0@, fields.1@, message.username, message.content);
}

/// Two different messages have two different pakets.
pub proof fn law_paket_injective(message: MessageView, other: MessageView)
    requires
        paket_bytes(message) == paket_bytes(other),
    ensures
        message == other,
{
    law_paket_text(message);
    law_paket_text(other);
    lemma_message_json_injective(
        message.username,
        message.content,
        other.username,
        other.content,
    );
}

/// Each char that is not written as `\u00..` takes at most 5 bytes in a paket.
pub proof fn law_char_u8_len(c: char)
    requires
        !is_hex_escaped(c),
    ensures
        encode_utf8(json_char(c)).len() <= 4 + 1,
{
    lemma_json_char_width(c);
}

/// The length of a paket is bounded by the number of chars, and of those among them that are
/// written as `\u00..`.
pub proof fn law_paket_u8_len(message: MessageView)
    ensures
        paket_bytes(message).len() <= 4 * (message.username.len() + message.content.len()) + 2 * (
        hex_escaped_count(message.username) + hex_escaped_count(message.content)) + 30,
{
    lemma_message_json_width(message.username, message.content);
    lemma_json_chars_width(message.username);
    lemma_json_chars_width(message.content);
}

/// How many chars of any valid message may be written as `\u00..` while its paket still fits.
pub open spec fn spare_escapes() -> int {
    (Message::MAX_PAKET_U8_LEN - 30 - 4 * (Message::MAX_CONTENT_LEN + Username::MAX_LEN)) / 2
}

/// The paket of a valid message is no longer than `Message::MAX_PAKET_U8_LEN`, unless too many of
/// its chars are written as `\u00..`.
pub proof fn law_paket_fits(message: MessageView)
    requires
        message.valid(),
        hex_escaped_count(message.username) + hex_escaped_count(message.content)
            <= spare_escapes(),
    ensures
        paket_bytes(message).len() <= Message::MAX_PAKET_U8_LEN,
{
    law_paket_u8_len(message);
}

/// Whether a message keeps to the limits of official messages.
pub open spec fn is_official(message: MessageView) -> bool {
    &&& message.valid()
    &&& message.content.len() <= Message::MAX_OFFICIAL_CONTENT_LEN
    &&& paket_bytes(message).len() <= Message::MAX_OFFICIAL_PAKET_U8_LEN
}

/// The official messages about a valid username are valid, their contents have at most
/// `Message::MAX_OFFICIAL_CONTENT_LEN` chars, fewer than a content may have, and their pakets at
/// most `Message::MAX_OFFICIAL_PAKET_U8_LEN` bytes.
pub proof fn law_official_messages(username: Username, new_status: UserStatus)
    requires
        username.valid(),
    ensures
        Message::MAX_OFFICIAL_CONTENT_LEN < Message::MAX_CONTENT_LEN,
        ({
            let helo = MessageView { username: username@, content: "helo"@ };
            let status = MessageView {
                username: "SERVER"@,
                content: status_text(username@, new_status),
            };
            let interrupt = MessageView {
                username: "SERVER"@,
                content: "The SERVER is shutting down this connection."@,
            };
            &&& is_official(helo)
            &&& is_official(status)
            &&& is_official(interrupt)
        }),
{
    reveal_strlit("helo");
    reveal_strlit("SERVER");
    reveal_strlit(" just joined the chat");
    reveal_strlit(" just left the chat");
    reveal_strlit("The SERVER is shutting down this connection.");
    let helo = MessageView { username: username@, content: "helo"@ };
    let status = MessageView { username: "SERVER"@, content: status_text(username@, new_status) };
    let interrupt = MessageView {
        username: "SERVER"@,
        content: "The SERVER is shutting down this connection."@,
    };
    law_paket_u8_len(helo);
    law_paket_u8_len(status);
    law_paket_u8_len(interrupt);
    lemma_json_chars_width(helo.username);
    lemma_json_chars_width(helo.content);
    lemma_json_chars_width(status.username);
    lemma_json_chars_width(status.content);
    lemma_json_chars_width(interrupt.username);
    lemma_json_chars_width(interrupt.content);
}

// ---------------------------------------------------------------------------------------------
// Texts that are spread over several messages
// ---------------------------------------------------------------------------------------------
/// The contents of the messages, one after the other.
pub open spec fn contents(messages: Seq<MessageView>) -> Seq<char>
    decreases messages.len(),
{
    if messages.len() == 0 {
        seq![]
    } else {
        contents(messages.drop_last()) + messages.last().content
    }
}

/// How many chars of a text of `len` chars its first `n` messages carry.
spec fn sent_after(n: nat, len: nat) -> int {
    if n * Message::MAX_CONTENT_LEN < len {
        n * Message::MAX_CONTENT_LEN
    } else {
        len as int
    }
}

proof fn lemma_chunk_prefix(username: Seq<char>, text: Seq<char>, n: nat)
    requires
        n <= chunk_count(text.len()),
    ensures
        contents(chunked(username, text).take(n as int)) == text.take(
            sent_after(n, text.len()),
        ),
    decreases n,
{
    let all = chunked(username, text);
    let prefix = all.take(n as int);
    if n == 0 {
        assert(contents(prefix) =~= text.take(0));
    } else {
        let m = (n - 1) as nat;
        lemma_chunk_prefix(username, text, m);
        assert(prefix.drop_last() =~= all.take(m as int));
        assert(prefix.last().content == chunk(text, m as int));
        assert(contents(prefix) =~= text.take(
            sent_after(n, text.len()),
        ));
    }
}

/// The messages that a text is spread over carry this text, whole and in order.
pub proof fn law_chunks_carry_the_text(username: Seq<char>, text: Seq<char>)
    ensures
        contents(chunked(username, text)) == text,
{
    let n = chunk_count(text.len());
    lemma_chunk_prefix(username, text, n);
    assert(chunked(username, text).take(n as int) =~= chunked(username, text));
    assert(n * 5000 >= text.len());
    assert(text.take(text.len() as int) =~= text);
}

/// Each of the messages that a text is spread over bears the username, and its content is neither
/// empty nor too long; all but the last are as long as possible.
pub proof fn law_chunks_valid(username: Seq<char>, text: Seq<char>, i: int)
    requires
        0 <= i < chunked(username, text).len(),
    ensures
        chunked(username, text)[i].username == username,
        0 < chunked(username, text)[i].content.len() <= Message::MAX_CONTENT_LEN,
        username.len() <= Username::MAX_LEN ==> chunked(username, text)[i].valid(),
        i < chunked(username, text).len() - 1 ==> chunked(username, text)[i].content.len()
            == Message::MAX_CONTENT_LEN,
{
    assert(chunked(username, text)[i].content == chunk(text, i));
    assert(i * 5000 < text.len());
}

// ---------------------------------------------------------------------------------------------
// Extraction
// ---------------------------------------------------------------------------------------------
/// The cut of bytes into pakets loses, adds and moves no byte, cuts behind every end delimiter,
/// and nowhere else.
pub proof fn law_cut(bytes: Seq<u8>)
    ensures
        pakets_of(bytes).flatten() + fragment_of(bytes) == bytes,
        forall|i: int| 0 <= i < pakets_of(bytes).len() ==> ends_once(#[trigger] pakets_of(bytes)[i]),
        !has_end(fragment_of(bytes)),
    decreases bytes.len(),
{
    lemma_fragment_without_end(bytes);
    if bytes.len() > 0 {
        let before = bytes.drop_last();
        law_cut(before);
        let (finished, fragment) = cut(before);
        let longer = fragment.push(bytes.last());
        assert(finished.flatten() + longer =~= before.push(bytes.last()));
        assert(before.push(bytes.last()) =~= bytes);
        if bytes.last() == Message::PAKET_END_U8 {
            finished.lemma_flatten_push(longer);
            assert(longer.drop_last() =~= fragment);
            assert(bytes + Seq::<u8>::empty() =~= bytes);
        }
    } else {
        assert(pakets_of(bytes).flatten() + fragment_of(bytes) =~= bytes);
    }
}

/// Cutting bytes that arrive in two parts gives what cutting them whole gives, if the fragment of
/// the first part is kept for the second.
pub proof fn law_cut_in_two(first: Seq<u8>, second: Seq<u8>)
    ensures
        pakets_of(first + second) == pakets_of(first) + pakets_of(fragment_of(first) + second),
        fragment_of(first + second) == fragment_of(fragment_of(first) + second),
    decreases second.len(),
{
    let fragment = fragment_of(first);
    if second.len() == 0 {
        assert(first + second =~= first);
        assert(fragment + second =~= fragment);
        lemma_fragment_without_end(first);
        lemma_cut_without_end(fragment);
        assert(pakets_of(first) + Seq::<Seq<u8>>::empty() =~= pakets_of(first));
    } else {
        let before = second.drop_last();
        law_cut_in_two(first, before);
        assert((first + second).drop_last() =~= first + before);
        assert((fragment + second).drop_last() =~= fragment + before);
        assert(pakets_of(first + second) =~= pakets_of(first) + pakets_of(fragment + second));
    }
}

/// The first end delimiter of bytes that start with a fragment ends the first paket, and the
/// fragment is part of it.
proof fn lemma_cut_first(fragment: Seq<u8>, bytes: Seq<u8>)
    requires
        !has_end(fragment),
        has_end(bytes),
    ensures
        pakets_of(fragment + bytes).len() > 0,
        pakets_of(fragment + bytes)[0].len() > fragment.len(),
        pakets_of(fragment + bytes).drop_first() == pakets_of(after_first_end(bytes)),
        fragment_of(fragment + bytes) == fragment_of(after_first_end(bytes)),
    decreases bytes.len(),
{
    let longer = fragment.push(bytes[0]);
    let rest = bytes.drop_first();
    assert(fragment + bytes =~= longer + rest);
    assert(longer.drop_last() =~= fragment);
    lemma_cut_without_end(fragment);
    if bytes[0] == Message::PAKET_END_U8 {
        law_cut_in_two(longer, rest);
        assert(fragment_of(longer) + rest =~= rest);
        assert(pakets_of(longer) =~= seq![longer]);
        assert((seq![longer] + pakets_of(rest)).drop_first() =~= pakets_of(rest));
    } else {
        assert(!has_end(longer)) by {
            assert forall|i: int| 0 <= i < longer.len() implies longer[i]
                != Message::PAKET_END_U8 by {
                if i < fragment.len() {
                    assert(fragment.contains(fragment[i]));
                }
            }
        }
        let k = choose|k: int| 0 <= k < bytes.len() && bytes[k] == Message::PAKET_END_U8;
        assert(rest[k - 1] == Message::PAKET_END_U8);
        lemma_cut_first(longer, rest);
    }
}

/// What an extractor does with one buffer after the other: its state in the end, and all that it
/// forwarded.
pub open spec fn run(state: ExtractorView, buffers: Seq<Seq<u8>>) -> (ExtractorView, Seq<
    Seq<u8>,
>)
    decreases buffers.len(),
{
    if buffers.len() == 0 {
        (state, Seq::empty())
    } else {
        let (before, forwarded) = run(state, buffers.drop_last());
        (
            after_read(before, buffers.last()),
            forwarded + forwarded_on_read(before, buffers.last()),
        )
    }
}

/// What is forwarded depends on the bytes that arrive, not on how the reads divide them: it is the
/// pakets into which the whole stream is cut, without those that are too long. The fragment that
/// is kept is the fragment of the whole stream; if it is too long, it is given up, and the rest of
/// that paket is dropped.
pub proof fn law_extraction(buffers: Seq<Seq<u8>>)
    ensures
        run(ExtractorView::initial(), buffers) == (
            ExtractorView::of_fragment(fragment_of(buffers.flatten())),
            fitting(pakets_of(buffers.flatten())),
        ),
    decreases buffers.len(),
{
    if buffers.len() == 0 {
        assert(buffers.flatten() =~= Seq::<u8>::empty());
        assert(fitting(Seq::empty()) =~= Seq::empty());
    } else {
        let earlier = buffers.drop_last();
        let last = buffers.last();
        law_extraction(earlier);
        assert(buffers =~= earlier.push(last));
        earlier.lemma_flatten_push(last);
        lemma_one_more_buffer(earlier.flatten(), last);
    }
}

/// How one more buffer changes what comes of the bytes before it.
pub proof fn lemma_one_more_buffer(bytes: Seq<u8>, buffer: Seq<u8>)
    ensures
        after_read(ExtractorView::of_fragment(fragment_of(bytes)), buffer)
            == ExtractorView::of_fragment(fragment_of(bytes + buffer)),
        fitting(pakets_of(bytes + buffer)) == fitting(pakets_of(bytes)) + forwarded_on_read(
            ExtractorView::of_fragment(fragment_of(bytes)),
            buffer,
        ),
{
    let fragment = fragment_of(bytes);
    let fits = |paket: Seq<u8>| !is_too_long(paket);
    lemma_fragment_without_end(bytes);
    law_cut_in_two(bytes, buffer);
    let finished = pakets_of(fragment + buffer);
    Seq::filter_distributes_over_add(pakets_of(bytes), finished, fits);
    if is_too_long(fragment) {
        if has_end(buffer) {
            lemma_cut_first(fragment, buffer);
            let others = finished.drop_first();
            assert(finished =~= seq![finished[0]] + others);
            Seq::filter_distributes_over_add(seq![finished[0]], others, fits);
            assert(seq![finished[0]] =~= Seq::<Seq<u8>>::empty().push(finished[0]));
            Seq::<Seq<u8>>::empty().lemma_filter_push(finished[0], fits);
            assert(seq![finished[0]].filter(fits) =~= Seq::empty());
            assert(fitting(finished) =~= fitting(others));
        } else {
            lemma_no_end(fragment, buffer);
            lemma_cut_without_end(fragment + buffer);
            assert(finished.filter(fits) =~= Seq::empty());
        }
    }
}

/// Two parts without an end delimiter have none together.
proof fn lemma_no_end(first: Seq<u8>, second: Seq<u8>)
    requires
        !has_end(first),
        !has_end(second),
    ensures
        !has_end(first + second),
{
    let whole = first + second;
    assert forall|i: int| 0 <= i < whole.len() implies whole[i] != Message::PAKET_END_U8 by {
        if i < first.len() {
            assert(first.contains(first[i]));
        } else {
            assert(second.contains(second[i - first.len()]));
        }
    }
}

/// Of the pakets of a stream the too long ones are dropped, and no other.
pub proof fn law_only_the_too_long_pakets_are_dropped(buffers: Seq<Seq<u8>>, paket: Seq<u8>)
    ensures
        run(ExtractorView::initial(), buffers).1.contains(paket) <==> {
            &&& pakets_of(buffers.flatten()).contains(paket)
            &&& paket.len() <= Message::MAX_PAKET_U8_LEN
        },
{
    law_extraction(buffers);
    let pakets = pakets_of(buffers.flatten());
    if pakets.contains(paket) && !is_too_long(paket) {
        let i = choose|i: int| 0 <= i < pakets.len() && pakets[i] == paket;
        pakets.lemma_filter_contains(|p: Seq<u8>| !is_too_long(p), i);
    }
    if fitting(pakets).contains(paket) {
        pakets.lemma_filter_contains_rev(|p: Seq<u8>| !is_too_long(p), paket);
        let i = choose|i: int| 0 <= i < fitting(pakets).len() && fitting(pakets)[i] == paket;
        pakets.lemma_filter_pred(|p: Seq<u8>| !is_too_long(p), i);
    }
}

/// Whether the reports are those that an extractor gives for one buffer after the other.
pub open spec fn are_reports_of_run(
    buffers: Seq<Seq<u8>>,
    reports: Seq<Seq<ExtractorReport>>,
) -> bool {
    &&& reports.len() == buffers.len()
    &&& forall|i: int|
        0 <= i < buffers.len() ==> are_reports_on_read(
            run(ExtractorView::initial(), buffers.take(i)).0,
            buffers[i],
            #[trigger] reports[i],
        )
}

/// Each paket of a stream that is too long is reported once, however the reads divide it, and
/// nothing else is; a paket that is not finished counts if it is too long already.
pub proof fn law_each_too_long_paket_is_reported_once(
    buffers: Seq<Seq<u8>>,
    reports: Seq<Seq<ExtractorReport>>,
)
    requires
        forall|i: int| 0 <= i < buffers.len() ==> (#[trigger] buffers[i]).len() > 0,
        are_reports_of_run(buffers, reports),
    ensures
        reports.flatten().len() == too_long(
            pakets_of(buffers.flatten()).push(fragment_of(buffers.flatten())),
        ).len(),
    decreases buffers.len(),
{
    if buffers.len() == 0 {
        assert(buffers.flatten() =~= Seq::<u8>::empty());
        assert(reports.flatten() =~= Seq::<ExtractorReport>::empty());
        lemma_too_long_push(Seq::empty(), Seq::empty());
        assert(too_long(Seq::empty()) =~= Seq::empty());
    } else {
        let earlier = buffers.drop_last();
        let last = buffers.last();
        let earlier_reports = reports.drop_last();
        assert(buffers =~= earlier.push(last));
        assert(reports =~= earlier_reports.push(reports.last()));
        assert forall|i: int| 0 <= i < earlier.len() implies are_reports_on_read(
            run(ExtractorView::initial(), earlier.take(i)).0,
            earlier[i],
            #[trigger] earlier_reports[i],
        ) by {
            assert(earlier.take(i) =~= buffers.take(i));
            assert(earlier_reports[i] == reports[i]);
        }
        assert forall|i: int| 0 <= i < earlier.len() implies (#[trigger] earlier[i]).len() > 0 by {
            assert(earlier[i] == buffers[i]);
        }
        law_each_too_long_paket_is_reported_once(earlier, earlier_reports);
        earlier.lemma_flatten_push(last);
        earlier_reports.lemma_flatten_push(reports.last());
        assert(buffers.take(earlier.len() as int) =~= earlier);
        assert(buffers[earlier.len() as int] == last);
        assert(are_reports_on_read(
            run(ExtractorView::initial(), buffers.take(earlier.len() as int)).0,
            buffers[earlier.len() as int],
            reports[earlier.len() as int],
        ));
        law_extraction(earlier);
        lemma_one_more_report(earlier.flatten(), last, reports.last());
    }
}

/// Whether one more paket is too long decides how many are.
proof fn lemma_too_long_push(pakets: Seq<Seq<u8>>, paket: Seq<u8>)
    ensures
        too_long(pakets.push(paket)).len() == too_long(pakets).len() + if is_too_long(paket) {
            1int
        } else {
            0
        },
{
    pakets.lemma_filter_push(paket, |p: Seq<u8>| is_too_long(p));
}

/// How many reports one more buffer adds.
proof fn lemma_one_more_report(bytes: Seq<u8>, buffer: Seq<u8>, reports: Seq<ExtractorReport>)
    requires
        buffer.len() > 0,
        are_reports_on_read(
            ExtractorView::of_fragment(fragment_of(bytes)),
            buffer,
            reports,
        ),
    ensures
        too_long(pakets_of(bytes + buffer).push(fragment_of(bytes + buffer))).len() == too_long(
            pakets_of(bytes).push(fragment_of(bytes)),
        ).len() + reports.len(),
{
    let fragment = fragment_of(bytes);
    let exceeds = |paket: Seq<u8>| is_too_long(paket);
    lemma_fragment_without_end(bytes);
    law_cut_in_two(bytes, buffer);
    let finished = pakets_of(fragment + buffer);
    let rest = fragment_of(fragment + buffer);
    Seq::filter_distributes_over_add(pakets_of(bytes), finished, exceeds);
    lemma_too_long_push(pakets_of(bytes), fragment);
    lemma_too_long_push(pakets_of(bytes + buffer), rest);
    lemma_too_long_push(finished, rest);
    if is_too_long(fragment) {
        if has_end(buffer) {
            lemma_cut_first(fragment, buffer);
            let others = finished.drop_first();
            assert(finished =~= seq![finished[0]] + others);
            Seq::filter_distributes_over_add(seq![finished[0]], others, exceeds);
            assert(seq![finished[0]] =~= Seq::<Seq<u8>>::empty().push(finished[0]));
            lemma_too_long_push(Seq::empty(), finished[0]);
            assert(too_long(Seq::empty()) =~= Seq::empty());
            lemma_too_long_push(others, rest);
            let behind = after_first_end(buffer);
            assert(Seq::<u8>::empty() + behind =~= behind);
            if behind.len() == 0 {
                assert(pakets_of(behind) =~= Seq::empty());
            }
        } else {
            lemma_no_end(fragment, buffer);
            lemma_cut_without_end(fragment + buffer);
            assert(too_long(Seq::empty()) =~= Seq::empty());
        }
    }
}

/// What an extractor keeps is never more than a paket may have, whatever it reads.
pub proof fn law_fragment_bounded(state: ExtractorView, buffer: Seq<u8>)
    requires
        state.well_formed(),
    ensures
        after_read(state, buffer).well_formed(),
        after_read(state, buffer).previous_fragment.len() <= Message::MAX_PAKET_U8_LEN,
{
    lemma_fragment_without_end(state.previous_fragment + buffer);
    lemma_fragment_without_end(after_first_end(buffer));
}

// ---------------------------------------------------------------------------------------------
// From one end of the connection to the other
// ---------------------------------------------------------------------------------------------
/// A stream of messages is cut into the pakets of these messages, and nothing is left.
pub proof fn law_stream_is_cut_into_its_pakets(messages: Seq<MessageView>)
    ensures
        pakets_of(stream_of(messages)) == messages.map_values(
            |message: MessageView| paket_bytes(message),
        ),
        fragment_of(stream_of(messages)) == Seq::<u8>::empty(),
    decreases messages.len(),
{
    let f = |message: MessageView| paket_bytes(message);
    if messages.len() == 0 {
        assert(messages.map_values(f) =~= Seq::<Seq<u8>>::empty());
    } else {
        let earlier = messages.drop_last();
        let paket = paket_bytes(messages.last());
        law_stream_is_cut_into_its_pakets(earlier);
        law_cut_in_two(stream_of(earlier), paket);
        assert(Seq::<u8>::empty() + paket =~= paket);
        lemma_paket_is_cut_once(messages.last());
        assert(messages.map_values(f) =~= earlier.map_values(f) + seq![paket]);
    }
}

proof fn lemma_paket_is_cut_once(message: MessageView)
    ensures
        pakets_of(paket_bytes(message)) == seq![paket_bytes(message)],
        fragment_of(paket_bytes(message)) == Seq::<u8>::empty(),
{
    let paket = paket_bytes(message);
    let body = encode_utf8(message_json(message.username, message.content));
    let before = seq![Message::PAKET_INIT_U8] + body;
    law_delimiters_never_in_utf8(message_json(message.username, message.content));
    assert forall|i: int| 0 <= i < before.len() implies before[i] != Message::PAKET_END_U8 by {
        if i > 0 {
            assert(body.contains(body[i - 1]));
        }
    }
    lemma_cut_without_end(before);
    assert(paket.drop_last() =~= before);
    assert(before.push(Message::PAKET_END_U8) =~= paket);
    assert(pakets_of(paket) =~= seq![paket]);
}

/// What a client sends arrives: however the connection divides the stream of its messages, the
/// pakets of these messages are forwarded in order, all but those that are too long.
pub proof fn law_messages_arrive(messages: Seq<MessageView>, buffers: Seq<Seq<u8>>)
    requires
        buffers.flatten() == stream_of(messages),
    ensures
        run(ExtractorView::initial(), buffers) == (
            ExtractorView::initial(),
            fitting(messages.map_values(|message: MessageView| paket_bytes(message))),
        ),
{
    law_extraction(buffers);
    law_stream_is_cut_into_its_pakets(messages);
}

/// Nothing is left out of pakets that are not too long.
proof fn lemma_all_fit(pakets: Seq<Seq<u8>>)
    requires
        forall|i: int| 0 <= i < pakets.len() ==> !is_too_long(#[trigger] pakets[i]),
    ensures
        fitting(pakets) == pakets,
    decreases pakets.len(),
{
    if pakets.len() == 0 {
        assert(fitting(pakets) =~= pakets);
    } else {
        let earlier = pakets.drop_last();
        assert forall|i: int| 0 <= i < earlier.len() implies !is_too_long(
            #[trigger] earlier[i],
        ) by {
            assert(earlier[i] == pakets[i]);
        }
        lemma_all_fit(earlier);
        assert(pakets =~= earlier.push(pakets.last()));
        earlier.lemma_filter_push(pakets.last(), |p: Seq<u8>| !is_too_long(p));
        assert(!is_too_long(pakets[pakets.len() - 1]));
    }
}

/// Whatever the length of the stream and however the connection divides it, messages whose pakets
/// are not too long arrive, all of them and in order.
pub proof fn law_fitting_messages_arrive(messages: Seq<MessageView>, buffers: Seq<Seq<u8>>)
    requires
        buffers.flatten() == stream_of(messages),
        forall|i: int|
            0 <= i < messages.len() ==> paket_bytes(#[trigger] messages[i]).len()
                <= Message::MAX_PAKET_U8_LEN,
    ensures
        run(ExtractorView::initial(), buffers) == (
            ExtractorView::initial(),
            messages.map_values(|message: MessageView| paket_bytes(message)),
        ),
{
    law_messages_arrive(messages, buffers);
    let pakets = messages.map_values(|message: MessageView| paket_bytes(message));
    assert forall|i: int| 0 <= i < pakets.len() implies !is_too_long(#[trigger] pakets[i]) by {
        assert(pakets[i] == paket_bytes(messages[i]));
    }
    lemma_all_fit(pakets);
}

/// Whether the parser was asked to read each of the pakets, with these results.
pub open spec fn are_read_by<F: FnOnce(&str) -> Result<(String, String), JsonError>>(
    pakets: Seq<Seq<u8>>,
    parse: F,
    results: Seq<Result<Message, MsgFromPaketError>>,
) -> bool {
    &&& results.len() == pakets.len()
    &&& forall|i: int|
        0 <= i < pakets.len() ==> is_read_by(pakets[i], parse, #[trigger] results[i])
}

/// Messages come back at the other end of the connection, however it divides their stream: each of
/// the pakets that are forwarded gives its message, if the parser reads back what was written, and
/// no message is missing.
pub proof fn law_messages_come_back<F: FnOnce(&str) -> Result<(String, String), JsonError>>(
    messages: Seq<MessageView>,
    buffers: Seq<Seq<u8>>,
    parse: F,
    results: Seq<Result<Message, MsgFromPaketError>>,
)
    requires
        buffers.flatten() == stream_of(messages),
        forall|i: int|
            0 <= i < messages.len() ==> {
                &&& (#[trigger] messages[i]).valid()
                &&& paket_bytes(messages[i]).len() <= Message::MAX_PAKET_U8_LEN
                &&& reads_back(parse, messages[i])
            },
        are_read_by(run(ExtractorView::initial(), buffers).1, parse, results),
    ensures
        results.len() == messages.len(),
        forall|i: int|
            0 <= i < messages.len() ==> (#[trigger] results[i] matches Ok(back) && back@
                == messages[i]),
{
    law_fitting_messages_arrive(messages, buffers);
    assert forall|i: int| 0 <= i < messages.len() implies (#[trigger] results[i] matches Ok(back)
        && back@ == messages[i]) by {
        assert(run(ExtractorView::initial(), buffers).1[i] == paket_bytes(messages[i]));
        law_message_paket_message(messages[i], parse, results[i]);
    }
}

/// A text that a user types arrives: the pakets of the messages over which it is spread are
/// forwarded, all of them and in order, and the contents of these messages are the text. Left out
/// are messages whose pakets are too long.
pub proof fn law_text_arrives(username: Seq<char>, text: Seq<char>, buffers: Seq<Seq<u8>>)
    requires
        forall|i: int|
            0 <= i < chunked(username, text).len() ==> paket_bytes(
                #[trigger] chunked(username, text)[i],
            ).len() <= Message::MAX_PAKET_U8_LEN,
        buffers.flatten() == stream_of(chunked(username, text)),
    ensures
        run(ExtractorView::initial(), buffers) == (
            ExtractorView::initial(),
            chunked(username, text).map_values(|message: MessageView| paket_bytes(message)),
        ),
        contents(chunked(username, text)) == text,
{
    law_fitting_messages_arrive(chunked(username, text), buffers);
    law_chunks_carry_the_text(username, text);
}

/// What was typed of a line: the bytes without the newline at their end, if there is one.
pub open spec fn typed(bytes: Seq<u8>) -> Seq<u8> {
    if bytes.len() > 0 && bytes.last() == 0x0A {
        bytes.drop_last()
    } else {
        bytes
    }
}

/// Whether reading the chunks one after the other, each of which leaves the line incomplete, leads
/// a client from one state to the other.
pub open spec fn reads_lead_to(start: StdinView, chunks: Seq<Seq<u8>>, end: StdinView) -> bool
    decreases chunks.len(),
{
    if chunks.len() == 0 {
        end == start
    } else {
        exists|before: StdinView|
            reads_lead_to(start, chunks.drop_last(), before) && #[trigger] is_read_step(
                before,
                chunks.last(),
                end,
                StdinAction::Read,
            )
    }
}

proof fn lemma_reads_gather(start: StdinView, chunks: Seq<Seq<u8>>, end: StdinView)
    requires
        start.prompt.len() == 0,
        reads_lead_to(start, chunks, end),
    ensures
        end.prompt == chunks.flatten(),
        end.username == start.username,
        !ends_line(chunks.flatten()),
    decreases chunks.len(),
{
    if chunks.len() == 0 {
        assert(end.prompt =~= chunks.flatten());
    } else {
        let earlier = chunks.drop_last();
        let before = choose|before: StdinView|
            reads_lead_to(start, earlier, before) && #[trigger] is_read_step(
                before,
                chunks.last(),
                end,
                StdinAction::Read,
            );
        lemma_reads_gather(start, earlier, before);
        assert(chunks =~= earlier.push(chunks.last()));
        earlier.lemma_flatten_push(chunks.last());
    }
}

/// A line that a user types is sent whole, however the reads divide it, and without the newline at
/// its end: what is written are the pakets of the messages over which its text is spread.
pub proof fn law_line_is_sent(
    start: StdinView,
    chunks: Seq<Seq<u8>>,
    before: StdinView,
    last: Seq<u8>,
    end: StdinView,
    action: StdinAction,
)
    requires
        start.prompt.len() == 0,
        reads_lead_to(start, chunks, before),
        last.len() == 0 || last.last() == 0x0A,
        is_read_step(before, last, end, action),
        typed(chunks.push(last).flatten()).len() > 0,
        valid_utf8(typed(chunks.push(last).flatten())),
    ensures
        action matches StdinAction::Write { pakets } && pakets@ == stream_of(
            chunked(
                start.username,
                decode_utf8(typed(chunks.push(last).flatten())),
            ),
        ),
{
    lemma_reads_gather(start, chunks, before);
    chunks.lemma_flatten_push(last);
    let line = chunks.push(last).flatten();
    assert(before.prompt + without_newline(last) =~= typed(line));
}

/// The prompts that are complete after the events, and what has been typed of the next one.
pub open spec fn prompts_of(events: Seq<StdinEvent>) -> (Seq<Seq<u8>>, Seq<u8>)
    decreases events.len(),
{
    if events.len() == 0 {
        (Seq::empty(), Seq::empty())
    } else {
        let (prompts, begun) = prompts_of(events.drop_last());
        match events.last() {
            StdinEvent::PromptShown => (prompts, Seq::empty()),
            StdinEvent::Read { chunk } => if chunk@.len() == 0 || chunk@.last() == 0x0A {
                (prompts.push(begun + typed(chunk@)), Seq::empty())
            } else {
                (prompts, begun + typed(chunk@))
            },
            _ => (prompts, begun),
        }
    }
}

/// What a client writes to the connection.
pub open spec fn written(actions: Seq<StdinAction>) -> Seq<u8>
    decreases actions.len(),
{
    if actions.len() == 0 {
        seq![]
    } else {
        written(actions.drop_last()) + match actions.last() {
            StdinAction::Write { pakets } => pakets@,
            _ => seq![],
        }
    }
}

/// The text of a prompt; none if it is no UTF-8.
pub open spec fn prompt_text(prompt: Seq<u8>) -> Seq<char> {
    if valid_utf8(prompt) {
        decode_utf8(prompt)
    } else {
        seq![]
    }
}

/// The texts of the prompts, one after the other.
pub open spec fn text_of(prompts: Seq<Seq<u8>>) -> Seq<char>
    decreases prompts.len(),
{
    if prompts.len() == 0 {
        seq![]
    } else {
        text_of(prompts.drop_last()) + prompt_text(prompts.last())
    }
}

/// The messages over which the texts of the prompts are spread, each prompt for itself.
pub open spec fn messages_of(username: Seq<char>, prompts: Seq<Seq<u8>>) -> Seq<MessageView>
    decreases prompts.len(),
{
    if prompts.len() == 0 {
        seq![]
    } else {
        messages_of(username, prompts.drop_last()) + chunked(
            username,
            prompt_text(prompts.last()),
        )
    }
}

/// Whether a client went through the states, by these events and with these actions.
pub open spec fn is_session(
    states: Seq<StdinView>,
    events: Seq<StdinEvent>,
    actions: Seq<StdinAction>,
) -> bool {
    &&& states.len() == events.len() + 1
    &&& actions.len() == events.len()
    &&& states[0].prompt.len() == 0
    &&& forall|i: int|
        0 <= i < events.len() ==> is_stdin_step(
            states[i],
            events[i],
            states[i + 1],
            #[trigger] actions[i],
        )
}

/// The streams of messages that follow each other are the stream of them all.
proof fn lemma_stream_concat(a: Seq<MessageView>, b: Seq<MessageView>)
    ensures
        stream_of(a + b) == stream_of(a) + stream_of(b),
    decreases b.len(),
{
    if b.len() == 0 {
        assert(a + b =~= a);
        assert(stream_of(a) + stream_of(b) =~= stream_of(a));
    } else {
        lemma_stream_concat(a, b.drop_last());
        assert((a + b).drop_last() =~= a + b.drop_last());
        assert(stream_of(a + b) =~= stream_of(a) + stream_of(b));
    }
}

/// The contents of messages that follow each other are the contents of them all.
proof fn lemma_contents_concat(a: Seq<MessageView>, b: Seq<MessageView>)
    ensures
        contents(a + b) == contents(a) + contents(b),
    decreases b.len(),
{
    if b.len() == 0 {
        assert(a + b =~= a);
        assert(contents(a) + contents(b) =~= contents(a));
    } else {
        lemma_contents_concat(a, b.drop_last());
        assert((a + b).drop_last() =~= a + b.drop_last());
        assert(contents(a + b) =~= contents(a) + contents(b));
    }
}

/// However many prompts a user completes, and however the reads divide them: what is written are
/// the pakets of the messages over which the texts of the prompts are spread, in order. A prompt
/// that is no text adds nothing.
pub proof fn law_prompts_are_sent(
    states: Seq<StdinView>,
    events: Seq<StdinEvent>,
    actions: Seq<StdinAction>,
)
    requires
        is_session(states, events, actions),
    ensures
        written(actions) == stream_of(messages_of(states[0].username, prompts_of(events).0)),
        states.last().username == states[0].username,
        states.last().prompt == prompts_of(events).1,
    decreases events.len(),
{
    if events.len() == 0 {
        assert(states.last().prompt =~= Seq::empty());
    } else {
        let n = events.len() - 1;
        let earlier_states = states.drop_last();
        let earlier_events = events.drop_last();
        let earlier_actions = actions.drop_last();
        assert forall|i: int| 0 <= i < earlier_events.len() implies is_stdin_step(
            earlier_states[i],
            earlier_events[i],
            earlier_states[i + 1],
            #[trigger] earlier_actions[i],
        ) by {
            assert(earlier_actions[i] == actions[i]);
        }
        law_prompts_are_sent(earlier_states, earlier_events, earlier_actions);
        assert(is_stdin_step(states[n], events[n], states[n + 1], actions[n]));
        let username = states[0].username;
        let (prompts, begun) = prompts_of(earlier_events);
        assert(events.last() == events[n] && actions.last() == actions[n]);
        assert(earlier_states.last() == states[n]);
        match events[n] {
            StdinEvent::Read { chunk } => {
                if completes_line(chunk@) {
                    let prompt = begun + typed(chunk@);
                    let next = chunked(username, prompt_text(prompt));
                    assert(prompts.push(prompt).drop_last() =~= prompts);
                    lemma_stream_concat(messages_of(username, prompts), next);
                    if prompt.len() == 0 {
                        lemma_empty_prompt(username, prompt);
                    } else if !valid_utf8(prompt) {
                        assert(next =~= Seq::empty());
                    }
                }
            },
            _ => {},
        }
        assert(written(actions) =~= stream_of(messages_of(username, prompts_of(events).0)));
    }
}

/// An empty prompt needs no message.
proof fn lemma_empty_prompt(username: Seq<char>, prompt: Seq<u8>)
    requires
        prompt.len() == 0,
    ensures
        chunked(username, prompt_text(prompt)) == Seq::<MessageView>::empty(),
{
    if valid_utf8(prompt) {
        assert(decode_utf8(prompt).len() == 0);
    }
    assert(chunked(username, prompt_text(prompt)) =~= Seq::empty());
}

/// The messages of prompts carry the texts of the prompts, whole and in order. Each bears the
/// username, and its content is neither empty nor too long.
pub proof fn law_messages_carry_the_prompts(username: Seq<char>, prompts: Seq<Seq<u8>>)
    ensures
        contents(messages_of(username, prompts)) == text_of(prompts),
        forall|i: int|
            0 <= i < messages_of(username, prompts).len() ==> {
                &&& (#[trigger] messages_of(username, prompts)[i]).username == username
                &&& 0 < messages_of(username, prompts)[i].content.len()
                    <= Message::MAX_CONTENT_LEN
            },
    decreases prompts.len(),
{
    if prompts.len() > 0 {
        let earlier = messages_of(username, prompts.drop_last());
        let text = prompt_text(prompts.last());
        let next = chunked(username, text);
        law_messages_carry_the_prompts(username, prompts.drop_last());
        lemma_contents_concat(earlier, next);
        law_chunks_carry_the_text(username, text);
        assert forall|i: int| 0 <= i < (earlier + next).len() implies {
            &&& (#[trigger] (earlier + next)[i]).username == username
            &&& 0 < (earlier + next)[i].content.len() <= Message::MAX_CONTENT_LEN
        } by {
            if i >= earlier.len() {
                law_chunks_valid(username, text, i - earlier.len());
            }
        }
    }
}

/// What a user types comes back at the other end of the connection: the pakets that are forwarded
/// give messages that bear the username and whose contents, one after the other, are the texts of
/// the prompts. Left out are usernames that are too long, parsers that do not read back what was
/// written, and messages whose pakets are too long.
pub proof fn law_prompts_come_back<F: FnOnce(&str) -> Result<(String, String), JsonError>>(
    states: Seq<StdinView>,
    events: Seq<StdinEvent>,
    actions: Seq<StdinAction>,
    buffers: Seq<Seq<u8>>,
    parse: F,
    results: Seq<Result<Message, MsgFromPaketError>>,
)
    requires
        is_session(states, events, actions),
        states[0].username.len() <= Username::MAX_LEN,
        buffers.flatten() == written(actions),
        ({
            let messages = messages_of(states[0].username, prompts_of(events).0);
            forall|i: int|
                0 <= i < messages.len() ==> {
                    &&& paket_bytes(#[trigger] messages[i]).len() <= Message::MAX_PAKET_U8_LEN
                    &&& reads_back(parse, messages[i])
                }
        }),
        are_read_by(run(ExtractorView::initial(), buffers).1, parse, results),
    ensures
        ({
            let messages = messages_of(states[0].username, prompts_of(events).0);
            &&& contents(messages) == text_of(prompts_of(events).0)
            &&& results.len() == messages.len()
            &&& forall|i: int|
                0 <= i < messages.len() ==> {
                    &&& (#[trigger] results[i]) matches Ok(back)
                    &&& back@ == messages[i]
                    &&& back@.username == states[0].username
                }
        }),
{
    let username = states[0].username;
    let messages = messages_of(username, prompts_of(events).0);
    law_prompts_are_sent(states, events, actions);
    law_messages_carry_the_prompts(username, prompts_of(events).0);
    assert forall|i: int| 0 <= i < messages.len() implies {
        &&& (#[trigger] messages[i]).valid()
        &&& paket_bytes(messages[i]).len() <= Message::MAX_PAKET_U8_LEN
        &&& reads_back(parse, messages[i])
    } by {
        assert(messages[i].username == username);
    }
    law_messages_come_back(messages, buffers, parse, results);
    assert forall|i: int| 0 <= i < messages.len() implies {
        &&& (#[trigger] results[i]) matches Ok(back)
        &&& back@ == messages[i]
        &&& back@.username == username
    } by {
        assert(messages[i].username == username);
    }
}

// ---------------------------------------------------------------------------------------------
// Through the server
// ---------------------------------------------------------------------------------------------
/// A dispatch reaches every client but the one that it comes from, and reaches it unchanged.
pub proof fn law_dispatch_reaches_the_others(dispatch: DispatchView, userid: usize)
    ensures
        userid == dispatch.userid <==> delivered(dispatch, userid) is None,
        userid != dispatch.userid ==> delivered(dispatch, userid) == Some(dispatch.bytes),
{
}

/// Nothing that the server sends out for a client comes back to this client, whatever names the
/// others bear.
pub proof fn law_client_gets_nothing_of_its_own(client: ClientReaderView, event: ClientEvent)
    ensures
        client_dispatch(client, event) matches Some(dispatch) ==> delivered(
            dispatch,
            client.userid,
        ) is None,
        delivered(
            status_dispatch(client.userid, client.username, UserStatus::Present),
            client.userid,
        ) is None,
{
}

/// The dispatches that the actions of the server for a client send out.
pub open spec fn dispatches_of(actions: Seq<ClientAction>) -> Seq<DispatchView>
    decreases actions.len(),
{
    if actions.len() == 0 {
        seq![]
    } else {
        dispatches_of(actions.drop_last()) + match actions.last() {
            ClientAction::Send(dispatch) => seq![dispatch@],
            ClientAction::Wait => seq![],
            ClientAction::SendAndStop(dispatch) => seq![dispatch@],
        }
    }
}

/// The dispatch with which the server tells the chat the text.
pub open spec fn announcement(userid: usize, text: Seq<char>) -> DispatchView {
    DispatchView {
        userid,
        bytes: paket_bytes(MessageView { username: "SERVER"@, content: text }),
    }
}

/// The dispatches that the events of a client call for: each paket as it came, and what the chat is
/// told when the client is cancelled.
pub open spec fn called_for(client: ClientReaderView, events: Seq<ClientEvent>) -> Seq<
    DispatchView,
>
    decreases events.len(),
{
    if events.len() == 0 {
        seq![]
    } else {
        called_for(client, events.drop_last()) + match events.last() {
            ClientEvent::Paket(Some(bytes)) => seq![
                DispatchView { userid: client.userid, bytes: bytes@ },
            ],
            ClientEvent::Paket(None) => seq![],
            ClientEvent::Cancelled => seq![
                announcement(client.userid, client.username + " just left the chat"@),
            ],
        }
    }
}

/// All that is sent out for a connection: the welcome and what follows it, or nothing if the client
/// does not greet.
pub open spec fn sent_for_connection(
    outcome: Result<(ClientReader, Dispatch), NoHelo>,
    actions: Seq<ClientAction>,
) -> Seq<DispatchView> {
    match outcome {
        Ok((_, welcome)) => seq![welcome@] + dispatches_of(actions),
        Err(_) => seq![],
    }
}

/// Whether the server took these actions about the events of a client, if it greeted.
pub open spec fn is_connection(
    userid: usize,
    first: FirstPaket,
    outcome: Result<(ClientReader, Dispatch), NoHelo>,
    events: Seq<ClientEvent>,
    actions: Seq<ClientAction>,
) -> bool {
    &&& is_greet_outcome(userid, first, outcome)
    &&& outcome matches Ok((client, _)) ==> {
        &&& actions.len() == events.len()
        &&& forall|i: int|
            0 <= i < events.len() ==> is_client_step(client@, events[i], #[trigger] actions[i])
    }
}

proof fn lemma_dispatches_called_for(
    client: ClientReaderView,
    events: Seq<ClientEvent>,
    actions: Seq<ClientAction>,
)
    requires
        actions.len() == events.len(),
        forall|i: int|
            0 <= i < events.len() ==> is_client_step(client, events[i], #[trigger] actions[i]),
    ensures
        dispatches_of(actions) == called_for(client, events),
        forall|i: int|
            0 <= i < dispatches_of(actions).len() ==> (#[trigger] dispatches_of(actions)[i]).userid
                == client.userid,
    decreases events.len(),
{
    if events.len() > 0 {
        let earlier = actions.drop_last();
        assert forall|i: int| 0 <= i < earlier.len() implies is_client_step(
            client,
            events.drop_last()[i],
            #[trigger] earlier[i],
        ) by {
            assert(earlier[i] == actions[i]);
        }
        lemma_dispatches_called_for(client, events.drop_last(), earlier);
        let n = events.len() - 1;
        assert(is_client_step(client, events[n], actions[n]));
        assert(dispatches_of(actions) =~= called_for(client, events));
    }
}

/// A whole connection: every dispatch that is sent out for it bears the identifier of the client.
/// If there is any, the client greeted, the first one is the welcome with the username of the
/// greeting, and the others are those that the events of the client call for, in order.
pub proof fn law_connection(
    userid: usize,
    first: FirstPaket,
    outcome: Result<(ClientReader, Dispatch), NoHelo>,
    events: Seq<ClientEvent>,
    actions: Seq<ClientAction>,
)
    requires
        is_connection(userid, first, outcome, events, actions),
    ensures
        forall|i: int|
            0 <= i < sent_for_connection(outcome, actions).len() ==> (
            #[trigger] sent_for_connection(outcome, actions)[i]).userid == userid,
        sent_for_connection(outcome, actions).len() > 0 <==> (first matches Some(Ok(message))
            && message@.content == "helo"@),
        sent_for_connection(outcome, actions).len() > 0 ==> {
            &&& first matches Some(Ok(message))
            &&& sent_for_connection(outcome, actions) == seq![
                announcement(userid, message@.username + " just joined the chat"@),
            ] + called_for(ClientReaderView { userid, username: message@.username }, events)
        },
{
    if let Ok((client, welcome)) = outcome {
        lemma_dispatches_called_for(client@, events, actions);
    }
}

/// A client that sends the paket of a greeting is taken up under its username, if the parser reads
/// back what was written.
pub proof fn law_helo_is_a_greeting<F: FnOnce(&str) -> Result<(String, String), JsonError>>(
    username: Seq<char>,
    parse: F,
    r: Result<Message, MsgFromPaketError>,
)
    requires
        username.len() <= Username::MAX_LEN,
        reads_back(parse, MessageView { username, content: "helo"@ }),
        is_read_by(paket_bytes(MessageView { username, content: "helo"@ }), parse, r),
    ensures
        is_greeting(Some(r)),
        r matches Ok(message) && message@.username == username,
{
    reveal_strlit("helo");
    law_message_paket_message(MessageView { username, content: "helo"@ }, parse, r);
}

/// The message of a dispatch comes back from it, whatever its identifier, if the parser reads back
/// what was written; and no message comes from a dispatch without bytes.
pub proof fn law_message_dispatch_message<
    F: FnOnce(&str) -> Result<(String, String), JsonError>,
>(dispatch: DispatchView, message: MessageView, parse: F, r: Result<Message, MsgFromPaketError>)
    requires
        is_dispatch_read_by(dispatch, parse, r),
    ensures
        dispatch.bytes == paket_bytes(message) && message.valid() && reads_back(parse, message)
            ==> (r matches Ok(back) && back@ == message),
        dispatch.bytes.len() == 0 ==> r == Err::<Message, MsgFromPaketError>(
            MsgFromPaketError::EmptyPaket,
        ),
{
    if dispatch.bytes == paket_bytes(message) && message.valid() && reads_back(parse, message) {
        law_message_paket_message(message, parse, r);
    }
}

/// Whether the parser always replies the same to the text.
pub open spec fn replies_the_same<F: FnOnce(&str) -> Result<(String, String), JsonError>>(
    parse: F,
    expected: Seq<char>,
) -> bool {
    forall|
        text: &str,
        reply: Result<(String, String), JsonError>,
        same_text: &str,
        other: Result<(String, String), JsonError>,
    | #[trigger]
        parse.ensures((text,), reply) && #[trigger] parse.ensures((same_text,), other) && text@
            == expected && same_text@ == expected ==> reply == other
}

/// Whether both give the same message, or errors with the same text.
pub open spec fn gives_the_same(
    r: Result<Message, MsgFromPaketError>,
    other: Result<Message, MsgFromPaketError>,
) -> bool {
    match (r, other) {
        (Ok(message), Ok(same)) => message@ == same@,
        (Err(err), Err(same)) => err.shown() == same.shown(),
        _ => false,
    }
}

/// A dispatch reads as its bytes do, whatever its identifier. What may come of it, may come of a
/// dispatch of any other client with these bytes, and of the bytes alone. Where they hold no text
/// between two delimiters, what comes is always the same; and where they do, it is the same if the
/// parser always replies the same to that text.
pub proof fn law_dispatch_reads_as_its_bytes<
    F: FnOnce(&str) -> Result<(String, String), JsonError>,
>(
    dispatch: DispatchView,
    userid: usize,
    parse: F,
    r: Result<Message, MsgFromPaketError>,
    other: Result<Message, MsgFromPaketError>,
)
    requires
        is_dispatch_read_by(dispatch, parse, r),
        is_read_by(dispatch.bytes, parse, other),
    ensures
        is_dispatch_read_by(DispatchView { userid, ..dispatch }, parse, r),
        is_dispatch_read_by(DispatchView { userid, ..dispatch }, parse, other),
        is_read_by(dispatch.bytes, parse, r),
        paket_text(dispatch.bytes) is None ==> gives_the_same(r, other),
        paket_text(dispatch.bytes) matches Some(text) ==> replies_the_same(parse, text)
            ==> gives_the_same(r, other),
{
    if paket_text(dispatch.bytes) is None && r->Err_0 is StringFromUtf8 {
        lemma_same_utf8_failure(
            paket_body(dispatch.bytes),
            r->Err_0->StringFromUtf8_0,
            other->Err_0->StringFromUtf8_0,
        );
    }
}

/// What a failed conversion reports is determined by the bytes.
proof fn lemma_same_utf8_failure(bytes: Seq<u8>, failure: Utf8Failure, other: Utf8Failure)
    requires
        is_utf8_failure(failure, bytes),
        is_utf8_failure(other, bytes),
    ensures
        failure.shown() == other.shown(),
{
    assert(failure.valid_up_to == other.valid_up_to) by {
        assert(valid_utf8(bytes.take(failure.valid_up_to as int)));
        assert(valid_utf8(bytes.take(other.valid_up_to as int)));
    }
}

/// No two clients get the same identifier.
pub proof fn law_userids_differ(n: int, m: int)
    requires
        n != m,
    ensures
        userid_of(n) != userid_of(m),
{
}

/// The identifiers of the clients that are served, in order.
pub open spec fn served(actions: Seq<AcceptAction>) -> Seq<usize>
    decreases actions.len(),
{
    if actions.len() == 0 {
        seq![]
    } else {
        served(actions.drop_last()) + match actions.last() {
            AcceptAction::Serve { userid } => seq![userid],
            _ => seq![],
        }
    }
}

/// The identifiers count the clients that are served, from 1 on and without a gap, whatever
/// connections fail in between. So none is given away twice.
pub proof fn law_userids_count_the_served(
    states: Seq<int>,
    events: Seq<AcceptEvent>,
    actions: Seq<AcceptAction>,
)
    requires
        states.len() == events.len() + 1,
        actions.len() == events.len(),
        states[0] == 0,
        forall|i: int|
            0 <= i < events.len() ==> is_accept_step(
                states[i],
                events[i],
                states[i + 1],
                #[trigger] actions[i],
            ),
    ensures
        states.last() == served(actions).len(),
        forall|k: int| 0 <= k < served(actions).len() ==> #[trigger] served(actions)[k] == k + 1,
    decreases events.len(),
{
    if events.len() > 0 {
        let n = events.len() - 1;
        let earlier = actions.drop_last();
        assert forall|i: int| 0 <= i < earlier.len() implies is_accept_step(
            states.drop_last()[i],
            events.drop_last()[i],
            states.drop_last()[i + 1],
            #[trigger] earlier[i],
        ) by {
            assert(earlier[i] == actions[i]);
        }
        law_userids_count_the_served(states.drop_last(), events.drop_last(), earlier);
        assert(is_accept_step(states[n], events[n], states[n + 1], actions[n]));
    }
}

/// Never more than `MAX_NUM_USERS` clients are served. The manager stops exactly where a connection
/// is accepted while that many are connected, or where no identifier is left.
pub proof fn law_room(given: int, connected: usize, after: int, action: AcceptAction)
    requires
        is_accept_step(given, AcceptEvent::Accepted { connected }, after, action),
    ensures
        action is Serve ==> connected + 1 <= MAX_NUM_USERS,
        action is Stop <==> connected >= MAX_NUM_USERS || userid_of(given) >= usize::MAX,
{
}

} // verus!
