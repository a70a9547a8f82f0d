use kaban_chat::prelude::{
    craft_random_msg, craft_random_text_of_len, username_prompt, ClientReader, Dispatch,
    ExtractorAction, JsonError, JsonErrorCategory, Message, MsgFromPaketError, PaketsExtractor, ReadEvent,
    Stdin2Tcp, StdinAction, StdinEvent, TextValidityError, UserStatus, Username,
};
use serde::de::{Deserialize, Deserializer, Error, IgnoredAny, MapAccess, SeqAccess, Visitor};
use serde::ser::{Serialize, SerializeStruct, Serializer};

/// The two fields of a message, as serde reads and writes them.
struct Wire {
    username: String,
    content: String,
}

impl Serialize for Wire {
    fn serialize<S: Serializer>(&self, serializer: S) -> Result<S::Ok, S::Error> {
        let mut fields = serializer.serialize_struct("Message", 2)?;
        fields.serialize_field("username", &self.username)?;
        fields.serialize_field("content", &self.content)?;
        fields.end()
    }
}

struct WireVisitor;

impl<'de> Visitor<'de> for WireVisitor {
    type Value = Wire;

    fn expecting(&self, formatter: &mut std::fmt::Formatter<'_>) -> std::fmt::Result {
        formatter.write_str("struct Message")
    }

    fn visit_seq<A: SeqAccess<'de>>(self, mut seq: A) -> Result<Wire, A::Error> {
        let username = match seq.next_element()? {
            Some(username) => username,
            None => return Err(A::Error::invalid_length(0, &"struct Message with 2 elements")),
        };
        let content = match seq.next_element()? {
            Some(content) => content,
            None => return Err(A::Error::invalid_length(1, &"struct Message with 2 elements")),
        };
        Ok(Wire { username, content })
    }

    fn visit_map<A: MapAccess<'de>>(self, mut map: A) -> Result<Wire, A::Error> {
        let mut username: Option<String> = None;
        let mut content: Option<String> = None;
        while let Some(key) = map.next_key::<String>()? {
            match key.as_str() {
                "username" => {
                    if username.is_some() {
                        return Err(A::Error::duplicate_field("username"));
                    }
                    username = Some(map.next_value()?);
                }
                "content" => {
                    if content.is_some() {
                        return Err(A::Error::duplicate_field("content"));
                    }
                    content = Some(map.next_value()?);
                }
                _ => {
                    let _ignored: IgnoredAny = map.next_value()?;
                }
            }
        }
        match (username, content) {
            (Some(username), Some(content)) => Ok(Wire { username, content }),
            (None, _) => Err(A::Error::missing_field("username")),
            (_, None) => Err(A::Error::missing_field("content")),
        }
    }
}

impl<'de> Deserialize<'de> for Wire {
    fn deserialize<D: Deserializer<'de>>(deserializer: D) -> Result<Wire, D::Error> {
        deserializer.deserialize_struct("Message", &["username", "content"], WireVisitor)
    }
}

fn parse(text: &str) -> Result<(String, String), JsonError> {
    match serde_json::from_str::<Wire>(text) {
        Ok(wire) => Ok((wire.username, wire.content)),
        Err(err) => Err(JsonError {
            category: match err.classify() {
                serde_json::error::Category::Io => JsonErrorCategory::Io,
                serde_json::error::Category::Syntax => JsonErrorCategory::Syntax,
                serde_json::error::Category::Data => JsonErrorCategory::Data,
                serde_json::error::Category::Eof => JsonErrorCategory::Eof,
            },
            io_error_kind: err.io_error_kind().map(|kind| format!("{kind:?}")),
            line: err.line(),
            column: err.column(),
        }),
    }
}

fn serde_json_text(msg: &Message) -> String {
    serde_json::to_string(&Wire {
        username: msg.get_username().to_string(),
        content: msg.get_content(),
    })
    .expect("The serde JSON serialization failed")
}

fn framed(text: &str) -> Vec<u8> {
    let mut paket = vec![Message::PAKET_INIT_U8];
    paket.extend_from_slice(text.as_bytes());
    paket.push(Message::PAKET_END_U8);
    paket
}

/// Extracts the pakets of a stream that arrives in reads of `size` bytes at most, until the
/// connection is interrupted.
fn extract(stream: &[u8], size: usize) -> Vec<Vec<u8>> {
    let mut extractor = PaketsExtractor::new();
    let mut forwarded: Vec<Vec<u8>> = Vec::new();
    for chunk in stream.chunks(size) {
        match extractor.step(ReadEvent::Read { buffer: chunk.to_vec() }) {
            ExtractorAction::Continue(mut processed) => {
                assert!(processed.reports.is_empty());
                forwarded.append(&mut processed.pakets)
            }
            action => panic!("The message depaketer failed. {action:?}"),
        }
    }
    assert_eq!(
        extractor.step(ReadEvent::Read { buffer: Vec::new() }),
        ExtractorAction::StopInterrupted
    );
    forwarded
}

#[test]
fn test_msg2paket2msg() {
    let valid_name = craft_random_text_of_len(Username::MAX_LEN);
    let valid_content = craft_random_text_of_len(Message::MAX_CONTENT_LEN);

    let valid_msg = Message::new(&Username::new(&valid_name).unwrap(), &valid_content)
        .expect("This message should have been valid!");
    let valid_paket = valid_msg.clone().paket();

    assert_eq!(Message::from_paket(valid_paket.clone(), parse), Ok(valid_msg.clone()));
    assert_eq!(valid_paket, framed(&serde_json_text(&valid_msg)));

    let random_short_text = craft_random_text_of_len(Message::MAX_CONTENT_LEN);

    let candidate_no_init_delimiter: Vec<u8> = serde_json_text(&valid_msg)
        .as_bytes()
        .iter()
        .chain(&[Message::PAKET_END_U8])
        .map(|&byte| byte)
        .collect();
    let candidate_no_end_delimiter: Vec<u8> = [Message::PAKET_INIT_U8]
        .iter()
        .chain(serde_json_text(&valid_msg).as_bytes().iter())
        .map(|&byte| byte)
        .collect();
    let candidate_not_valid_serialised_msg: Vec<u8> = framed(&random_short_text);

    assert_eq!(
        Message::from_paket(candidate_no_init_delimiter.clone(), parse),
        Err(MsgFromPaketError::NoInitDelimiter { candidate: candidate_no_init_delimiter })
    );
    assert_eq!(
        Message::from_paket(candidate_no_end_delimiter.clone(), parse),
        Err(MsgFromPaketError::NoEndDelimiter { candidate: candidate_no_end_delimiter })
    );
    assert_eq!(
        Message::from_paket(candidate_not_valid_serialised_msg, parse),
        Err(MsgFromPaketError::SerdeJson {
            dispaketed_candidate: random_short_text,
            category: JsonErrorCategory::Syntax,
            io_error_kind: None,
            line: 1,
            column: 1
        })
    );
}

#[test]
fn escapes_and_layout_of_a_paket() {
    let msg = Message::new(
        &Username::new("a\"\\/").unwrap(),
        "\u{0}\u{8}\t\n\u{b}\u{c}\r\u{1f} \u{7f}\u{e9}\u{20ac}\u{1f600}",
    )
    .unwrap();
    let expected =
        "{\"username\":\"a\\\"\\\\/\",\"content\":\"\\u0000\\b\\t\\n\\u000b\\f\\r\\u001f \u{7f}\u{e9}\u{20ac}\u{1f600}\"}";
    assert_eq!(serde_json_text(&msg), expected);
    assert_eq!(msg.clone().paket(), framed(expected));
    assert_eq!(Message::from_paket(framed(expected), parse), Ok(msg));
}

#[test]
fn delimiters_stand_only_at_the_ends_of_a_paket() {
    let msg = craft_random_msg(&Username::new("peppino").unwrap());
    let paket = msg.paket();
    assert_eq!(paket.first(), Some(&Message::PAKET_INIT_U8));
    assert_eq!(paket.last(), Some(&Message::PAKET_END_U8));
    for byte in &paket[1..paket.len() - 1] {
        assert_ne!(*byte, Message::PAKET_INIT_U8);
        assert_ne!(*byte, Message::PAKET_END_U8);
    }
}

#[test]
fn different_messages_have_different_pakets() {
    let name = Username::new("a").unwrap();
    let quoted = Message::new(&name, "\",\"content\":\"").unwrap();
    let other = Message::new(&Username::new("a\",\"content\":\"").unwrap(), "").unwrap();
    assert_ne!(quoted.paket(), other.paket());
}

#[test]
fn paket_lengths() {
    let name = Username::new("").unwrap();
    assert_eq!(Message::new(&name, "").unwrap().paket().len(), 30);
    assert_eq!(Message::MAX_PAKET_U8_LEN, 25200);
    assert_eq!(Message::MAX_OFFICIAL_PAKET_U8_LEN, 700);
    let widest = "\u{1f600}".repeat(Message::MAX_CONTENT_LEN);
    assert_eq!(Message::new(&name, &widest).unwrap().paket().len(), 4 * 5000 + 30);
    let controls = "\u{1}".repeat(Message::MAX_CONTENT_LEN);
    let too_long = Message::new(&name, &controls).unwrap().paket();
    assert_eq!(too_long.len(), 6 * 5000 + 30);
    assert!(too_long.len() > Message::MAX_PAKET_U8_LEN);
    let username = Username::new(&"\u{1}".repeat(Username::MAX_LEN)).unwrap();
    let status = Message::craft_msg_change_status(&username, UserStatus::Present);
    assert!(status.paket().len() <= Message::MAX_OFFICIAL_PAKET_U8_LEN);
}

#[test]
fn errors_of_from_paket() {
    assert_eq!(Message::from_paket(vec![], parse), Err(MsgFromPaketError::EmptyPaket));
    assert_eq!(
        Message::from_paket(vec![0xC1], parse),
        Err(MsgFromPaketError::NoInitDelimiter { candidate: vec![0xC1] })
    );
    assert_eq!(
        Message::from_paket(vec![0xC0], parse),
        Err(MsgFromPaketError::NoEndDelimiter { candidate: vec![0xC0] })
    );
    match Message::from_paket(vec![0xC0, b'a', 0xFF, b'b', 0xC1], parse) {
        Err(MsgFromPaketError::StringFromUtf8(failure)) => {
            assert_eq!(failure.bytes, vec![b'a', 0xFF, b'b']);
            assert_eq!(failure.valid_up_to, 1);
            assert_eq!(failure.error_len, Some(1));
        }
        other => panic!("{other:?}"),
    }
    match Message::from_paket(vec![0xC0, b'a', b'b', 0xE2, 0x82, 0xC1], parse) {
        Err(MsgFromPaketError::StringFromUtf8(failure)) => {
            assert_eq!(failure.bytes, vec![b'a', b'b', 0xE2, 0x82]);
            assert_eq!(failure.valid_up_to, 2);
            assert_eq!(failure.error_len, None);
        }
        other => panic!("{other:?}"),
    }
    assert_eq!(
        Message::from_paket(framed("{\"username\":\"u\"}"), parse),
        Err(MsgFromPaketError::SerdeJson {
            dispaketed_candidate: "{\"username\":\"u\"}".to_string(),
            category: JsonErrorCategory::Data,
            io_error_kind: None,
            line: 1,
            column: 16
        })
    );
    assert_eq!(
        Message::from_paket(framed(""), parse),
        Err(MsgFromPaketError::SerdeJson {
            dispaketed_candidate: String::new(),
            category: JsonErrorCategory::Eof,
            io_error_kind: None,
            line: 1,
            column: 0
        })
    );
}

#[test]
fn text_of_a_paket_and_reply_of_the_parser() {
    assert_eq!(Message::serialised_in_paket(framed("abc")), Ok("abc".to_string()));
    let msg = Message::from_parsed(
        "anything".to_string(),
        Ok(("u".repeat(32), "c".repeat(5000))),
    )
    .unwrap();
    assert_eq!(msg.get_username().to_string(), "u".repeat(32));
    assert_eq!(msg.get_content(), "c".repeat(5000));
}

fn too_long(kind: &str, entity: String, max_len: usize) -> MsgFromPaketError {
    let actual_len = entity.chars().count();
    MsgFromPaketError::TextValidity(TextValidityError::TooLong {
        kind_of_entity: kind.to_string(),
        actual_entity: entity,
        max_len,
        actual_len,
    })
}

#[test]
fn too_long_texts_in_pakets() {
    let paket = |username: &str, content: &str| {
        framed(&format!("{{\"username\":\"{username}\",\"content\":\"{content}\"}}"))
    };
    let (name, long_name) = ("u".repeat(32), "u".repeat(33));
    let (content, long_content) = ("c".repeat(5000), "c".repeat(5001));
    assert!(Message::from_paket(paket(&name, &content), parse).is_ok());
    assert_eq!(
        Message::from_paket(paket(&long_name, &content), parse),
        Err(too_long("username", long_name.clone(), 32))
    );
    assert_eq!(
        Message::from_paket(paket(&name, &long_content), parse),
        Err(too_long("content", long_content.clone(), 5000))
    );
    assert_eq!(
        Dispatch::new(1, paket(&long_name, &long_content)).into_msg(parse),
        Err(too_long("username", long_name.clone(), 32))
    );
    let first = Message::from_paket(paket(&long_name, "helo"), parse);
    assert!(ClientReader::greet(1, Some(first)).is_err());
}

#[test]
fn texts_of_paket_errors() {
    let text = |bytes: Vec<u8>| Message::from_paket(bytes, parse).unwrap_err().text();
    assert_eq!(text(vec![]), "The utf8 paket given was empty.");
    assert_eq!(
        text(vec![7, 0, 255]),
        "No paket init byte delimiter (\u{c0}) found in the utf8 sample. The sample is: [[[7, 0, 255]]]."
    );
    assert_eq!(
        text(vec![0xC0]),
        "No paket end byte delimiter (\u{c1}) found in the utf8 sample. The sample is: [[[192]]]."
    );
    assert_eq!(
        text(framed("a\"\n\u{e9}")),
        "serde_json Error: [[\"a\\\"\\n\u{e9}\"]], Syntax, None, at coord (line, column)=(1,1)."
    );
    for bytes in [vec![b'a', 0xFF, b'b'], vec![b'a', b'b', 0xE2, 0x82], vec![0xE2, 0x82, b'x']] {
        let expected = String::from_utf8(bytes.clone()).unwrap_err().to_string();
        let mut paket = vec![0xC0];
        paket.extend_from_slice(&bytes);
        paket.push(0xC1);
        assert_eq!(text(paket), expected);
    }
    assert_eq!(
        too_long("username", "u".repeat(33), 32).text(),
        format!("Too long username (expected at most 32 chars, found 33): [[{}]].", "u".repeat(33))
    );
    let io = MsgFromPaketError::SerdeJson {
        dispaketed_candidate: String::new(),
        category: JsonErrorCategory::Io,
        io_error_kind: Some("NotFound".to_string()),
        line: 10,
        column: 205,
    };
    assert_eq!(
        io.text(),
        "serde_json Error: [[\"\"]], Io, Some(NotFound), at coord (line, column)=(10,205)."
    );
    assert_eq!(JsonErrorCategory::Data.text(), "Data");
    assert_eq!(JsonErrorCategory::Eof.text(), "Eof");
}

#[test]
fn dispatch_into_msg() {
    let msg = Message::craft_msg_helo(&Username::new("peppino").unwrap());
    let dispatch = Dispatch::new(3, msg.clone().paket());
    assert_eq!(dispatch.clone().into_msg(parse), Ok(msg.clone()));
    assert_eq!(dispatch.get_userid(), 3);
    assert_eq!(dispatch.get_bytes(), msg.paket());
    assert_eq!(Dispatch::new(3, vec![]).into_msg(parse), Err(MsgFromPaketError::EmptyPaket));
    for bytes in [vec![], vec![7], vec![0xC0, 0xFF, 0xC1], framed("no message"), framed("{}")] {
        let expected = Message::from_paket(bytes.clone(), parse);
        assert_eq!(Dispatch::new(3, bytes.clone()).into_msg(parse), expected);
        assert_eq!(Dispatch::new(4, bytes).into_msg(parse), expected);
    }
}

#[test]
fn test_pakets_extractor() {
    let num_messages = 100;

    let mut sent: Vec<Vec<u8>> = Vec::new();
    for num in 0..num_messages {
        let username =
            Username::new(&format!("user{}", num)).expect("This username is not valid");
        let random_message = craft_random_msg(&username);
        sent.push(random_message.paket());
    }
    let stream: Vec<u8> = sent.concat();

    let received = extract(&stream, Message::INCOMING_MSG_BUFFER_U8_LEN);
    assert_eq!(received, sent);
    for paket in received {
        let message_result = Message::from_paket(paket, parse);
        assert!(message_result.is_ok());
    }
}

#[test]
fn control_chars_arrive_while_their_paket_fits() {
    let username = Username::new("u").unwrap();
    let text = "\u{1}".repeat(3000);
    let stream = Message::pakets_of_text(&username, &text);
    assert_eq!(stream.len(), 6 * 3000 + 31);
    let mut pakets = extract(&stream, 1000);
    assert_eq!(pakets, vec![stream]);
    let msg = Message::from_paket(pakets.remove(0), parse).unwrap();
    assert_eq!(msg.get_content(), text);
}

#[test]
fn test_stdin2tcp() {
    let num_messages_prompt = 100;

    let prompt_buffer0 = "Nam ignoratione rerum bonarum et malarum maxime
hominum vita vexatur ob eumque errorem et voluptatibus
maximis saepe privantur et durissimis animi doloribus
torquentur.
Ergo sapientia est adhibenda, quae et terroribus
cupiditatibusque detractis et omnium falsarum opinionum
temeritate derepta se nobis certissimam ducem praebeat ad
voluptatem\n"
        .to_string();

    let prompt_buffer1 = format!("{}\n", craft_random_text_of_len(Message::MAX_CONTENT_LEN));

    let prompt_buffer2 = (1..=num_messages_prompt)
        .map(|num| -> Vec<char> {
            let prefix_len = "MESSAGE_n__[[[]]]\n".chars().count()
                + 1_usize
                + (num as f64).log10().floor() as usize;
            let msg = format!(
                "MESSAGE_n_{}_[[[{}]]]\n",
                num,
                craft_random_text_of_len(Message::MAX_CONTENT_LEN - prefix_len)
            );
            msg.chars().collect()
        })
        .flatten()
        .collect::<String>();

    let username = Username::new("peppino").unwrap();
    assert_eq!(username_prompt(&username), "peppino:> ");

    let mut client = Stdin2Tcp::new(&username);
    let mut stream: Vec<u8> = Vec::new();
    let mut action = StdinAction::ShowPrompt { report: None };
    for buffer in [&prompt_buffer0, &prompt_buffer1, &prompt_buffer2] {
        for chunk in buffer.as_bytes().chunks(Message::OUTGOING_MSG_BUFFER_U8_LEN) {
            if action == (StdinAction::ShowPrompt { report: None }) {
                action = client.step(StdinEvent::PromptShown);
            }
            assert_eq!(action, StdinAction::Read);
            action = client.step(StdinEvent::Read { chunk: chunk.to_vec() });
            if let StdinAction::Write { pakets } = &action {
                stream.extend_from_slice(pakets);
                action = client.step(StdinEvent::Written);
            }
        }
    }
    assert_eq!(action, StdinAction::ShowPrompt { report: None });

    let mut contents = String::new();
    for paket in extract(&stream, Message::INCOMING_MSG_BUFFER_U8_LEN) {
        let msg_result = Message::from_paket(paket, parse);
        assert!(msg_result.is_ok());
        if let Ok(msg) = msg_result {
            assert_eq!(msg.get_username(), username);
            contents.push_str(&msg.get_content());
        }
    }
    assert!(contents.starts_with(prompt_buffer0.trim_end_matches('\n')));
    assert!(contents.ends_with("]]]"));
}

#[test]
fn tcp_rd_receives_helo() {
    let username = Username::new("peppino").expect("This username is too long!");

    let helo_paket = Message::craft_msg_helo(&username).paket();

    let mut pakets = extract(&helo_paket, Message::INCOMING_MSG_BUFFER_U8_LEN);
    assert_eq!(pakets.len(), 1);
    let first = Message::from_paket(pakets.remove(0), parse);

    let (_client, dispatch) =
        ClientReader::greet(1, Some(first)).expect("No dispatch received!");
    let message_content = dispatch
        .into_msg(parse)
        .expect("The dispatch conversion into message yielded an Error.")
        .get_content();

    let expected_content = format!("{} just joined the chat", username.to_string());

    assert_eq!(
        message_content, expected_content,
        "The content of the message received is not helo"
    );
}

#[test]
fn every_division_of_a_stream_gives_the_same_pakets() {
    let name = Username::new("peppino").unwrap();
    let sent: Vec<Vec<u8>> = ["one", "", "three \u{20ac}"]
        .iter()
        .map(|content| Message::new(&name, content).unwrap().paket())
        .collect();
    let stream = sent.concat();
    for size in 1..stream.len() + 1 {
        assert_eq!(extract(&stream, size), sent);
    }
}
