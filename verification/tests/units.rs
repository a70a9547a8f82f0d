use kaban_chat::prelude::{
    chunk_outcome, client_handler_outcome, constant, craft_random_msg, craft_random_text_of_len,
    prompt_outcome, random_len_end, small_error_text, strip_newline, AcceptAction, AcceptEvent,
    ClientAction, ClientEvent, ClientHandlerError, ClientHandlerErrorCause, ClientReader, Dispatch,
    ExtractorAction, ExtractorReport, Message, MsgFromPaketError, NoHelo, PaketsExtractor,
    ProcessedBuffer, PromptOutcome, ReadEvent, ServerManager, Stdin2Tcp, StdinAction, StdinEvent,
    TextValidityError, UnusualEmptyEntity, UserStatus, Username, Utf8Failure,
};

#[test]
fn test_text_validity() {
    let valid_username = craft_random_text_of_len(Username::MAX_LEN);
    let valid_content = craft_random_text_of_len(Message::MAX_CONTENT_LEN);

    let username = Username::new(&valid_username).expect("This username should have been valid");
    let valid_msg = Message::new(&username, &valid_content);
    assert!(valid_msg.is_ok());

    let too_long_username = craft_random_text_of_len(Message::MAX_CONTENT_LEN + 1);
    let too_long_content = craft_random_text_of_len(Message::MAX_CONTENT_LEN + 1);

    let invalid_username = Username::new(&too_long_username);
    assert!(invalid_username.is_err());

    let invalid_message = Message::new(&username, &too_long_content);
    assert!(invalid_message.is_err());
}

#[test]
fn test_craft_random_valid_text_of_len() {
    for _ in 0..100 {
        let random_valid_text = craft_random_text_of_len(80);
        assert_eq!(random_valid_text.chars().count(), 80);
    }
}

#[test]
fn random_messages() {
    let username = Username::new("peppino").unwrap();
    let mut lengths: Vec<usize> = Vec::new();
    for _ in 0..50 {
        let msg = craft_random_msg(&username);
        assert_eq!(msg.get_username(), username);
        let len = msg.get_content().chars().count();
        assert!(len < Message::MAX_CONTENT_LEN);
        lengths.push(len);
    }
    assert!(lengths.iter().any(|&len| len != lengths[0]));
    assert_ne!(craft_random_text_of_len(80), craft_random_text_of_len(80));
}

#[test]
fn lengths_of_random_texts() {
    let end = random_len_end();
    assert!((end - 1).checked_mul(4).unwrap() <= isize::MAX as usize);
    assert!(end.checked_mul(4).unwrap() > isize::MAX as usize);
}

#[test]
fn too_long_texts() {
    assert_eq!(
        Username::new(&"\u{20ac}".repeat(33)),
        Err(TextValidityError::TooLong {
            kind_of_entity: "username".to_string(),
            actual_entity: "\u{20ac}".repeat(33),
            max_len: 32,
            actual_len: 33,
        })
    );
    let username = Username::new(&"\u{20ac}".repeat(32)).unwrap();
    assert_eq!(
        Message::new(&username, &"x".repeat(5001)),
        Err(TextValidityError::TooLong {
            kind_of_entity: "content".to_string(),
            actual_entity: "x".repeat(5001),
            max_len: 5000,
            actual_len: 5001,
        })
    );
    let msg = Message::new(&username, &"x".repeat(5000)).unwrap();
    assert_eq!(msg.get_content(), "x".repeat(5000));
    assert_eq!(msg.get_username().as_str(), "\u{20ac}".repeat(32));
}

#[test]
fn usernames_from_lines() {
    assert_eq!(Username::from_line("  pep pino \r\n").unwrap().to_string(), "pep pino");
    assert_eq!(
        Username::from_line("\u{3000}\u{a0}\u{85}x\u{2028}\u{200b}\u{2009}").unwrap().to_string(),
        "x\u{2028}\u{200b}"
    );
    assert_eq!(Username::from_line("\n").unwrap().to_string(), "");
    assert!(Username::from_line(&format!("\t{}\n", "y".repeat(33))).is_err());
    assert!(Username::from_line(&format!("\t{}\n", "y".repeat(32))).is_ok());
    let separators = "\u{9}\u{a}\u{b}\u{c}\u{d} \u{85}\u{a0}\u{1680}\u{2000}\u{2001}\u{200a}\u{2028}\u{2029}\u{202f}\u{205f}\u{3000}";
    assert_eq!(Username::from_line(separators).unwrap().to_string(), "");
}

#[test]
fn many_messages() {
    let username = Username::new("peppino").unwrap();
    assert!(Message::new_many(&username, "").is_empty());
    assert_eq!(Message::new_many(&username, "abc").len(), 1);
    assert_eq!(Message::new_many(&username, &"e".repeat(5000)).len(), 1);
    let text = "\u{e9}b".repeat(6000);
    let messages = Message::new_many(&username, &text);
    let lengths: Vec<usize> =
        messages.iter().map(|msg| msg.get_content().chars().count()).collect();
    assert_eq!(lengths, vec![5000, 5000, 2000]);
    let whole: String = messages.iter().map(|msg| msg.get_content()).collect();
    assert_eq!(whole, text);
    assert!(messages.iter().all(|msg| msg.get_username() == username));
    let stream: Vec<u8> = messages.into_iter().map(|msg| msg.paket()).flatten().collect();
    assert_eq!(Message::pakets_of_text(&username, &text), stream);
}

#[test]
fn official_messages() {
    let username = Username::new("peppino").unwrap();
    let helo = Message::craft_msg_helo(&username);
    assert_eq!(helo.get_username(), username);
    assert_eq!(helo.get_content(), "helo");
    let joined = Message::craft_msg_change_status(&username, UserStatus::Present);
    assert_eq!(joined.get_username().to_string(), "SERVER");
    assert_eq!(joined.get_content(), "peppino just joined the chat");
    let left = Message::craft_msg_change_status(&username, UserStatus::Absent);
    assert_eq!(left.get_username().to_string(), "SERVER");
    assert_eq!(left.get_content(), "peppino just left the chat");
    let interrupt = Message::craft_msg_server_interrupt_connection();
    assert_eq!(interrupt.get_username().to_string(), "SERVER");
    assert_eq!(interrupt.get_content(), "The SERVER is shutting down this connection.");
    assert!(Message::MAX_OFFICIAL_CONTENT_LEN < Message::MAX_CONTENT_LEN);
    let longest = Username::new(&"z".repeat(32)).unwrap();
    let joined = Message::craft_msg_change_status(&longest, UserStatus::Present).get_content();
    assert!(joined.chars().count() <= Message::MAX_OFFICIAL_CONTENT_LEN);
}

#[test]
fn constants() {
    assert_eq!(constant::SERVER_ADDR, "127.0.0.1:6440");
    assert_eq!(constant::MAX_NUM_USERS, 2000);
    assert_eq!(Username::MAX_LEN, 32);
    assert_eq!(Message::MAX_CONTENT_LEN, 5000);
    assert_eq!(Message::MAX_OFFICIAL_CONTENT_LEN, 100);
}

#[test]
fn dispatches_reach_the_others() {
    let dispatch = Dispatch::new(2, vec![1, 2, 3]);
    assert_eq!(dispatch.bytes_for(1), Some(vec![1, 2, 3]));
    assert_eq!(dispatch.bytes_for(2), None);
}

fn process(extractor: &mut PaketsExtractor, buffer: &[u8]) -> ProcessedBuffer {
    match extractor.step(ReadEvent::Read { buffer: buffer.to_vec() }) {
        ExtractorAction::Continue(processed) => processed,
        action => panic!("{action:?}"),
    }
}

#[test]
fn fragments_are_completed() {
    let mut extractor = PaketsExtractor::new();
    assert!(process(&mut extractor, b"\xC0ab").pakets.is_empty());
    assert_eq!(process(&mut extractor, b"c\xC1").pakets, vec![b"\xC0abc\xC1".to_vec()]);
    assert_eq!(
        process(&mut extractor, b"\xC0d\xC1\xC0e\xC1\xC1f").pakets,
        vec![b"\xC0d\xC1".to_vec(), b"\xC0e\xC1".to_vec(), b"\xC1".to_vec()]
    );
    assert_eq!(process(&mut extractor, b"\xC1").pakets, vec![b"f\xC1".to_vec()]);
    assert!(process(&mut extractor, b"g").pakets.is_empty());
}

#[test]
fn too_long_pakets_are_dropped() {
    let mut extractor = PaketsExtractor::new();
    let limit = vec![b'a'; Message::MAX_PAKET_U8_LEN];
    assert_eq!(process(&mut extractor, &limit), ProcessedBuffer { pakets: vec![], reports: vec![] });
    assert_eq!(
        process(&mut extractor, b"bc"),
        ProcessedBuffer {
            pakets: vec![],
            reports: vec![ExtractorReport::TooLongPaket {
                paket_u8_len: Message::MAX_PAKET_U8_LEN + 2
            }],
        }
    );
    assert!(extractor.is_reinitialising());
    assert_eq!(
        process(&mut extractor, b"more"),
        ProcessedBuffer { pakets: vec![], reports: vec![] }
    );
    assert!(extractor.is_reinitialising());
    assert_eq!(
        process(&mut extractor, b"end\xC1\xC0x\xC1\xC0y"),
        ProcessedBuffer { pakets: vec![b"\xC0x\xC1".to_vec()], reports: vec![] }
    );
    assert!(!extractor.is_reinitialising());
    assert_eq!(process(&mut extractor, b"z\xC1").pakets, vec![b"\xC0yz\xC1".to_vec()]);
}

#[test]
fn nothing_is_left_behind_a_dropped_paket() {
    let mut extractor = PaketsExtractor::new();
    process(&mut extractor, &vec![b'a'; Message::MAX_PAKET_U8_LEN + 1]);
    assert!(extractor.is_reinitialising());
    assert_eq!(
        process(&mut extractor, b"\xC1"),
        ProcessedBuffer { pakets: vec![], reports: vec![] }
    );
    assert_eq!(process(&mut extractor, b"\xC0b\xC1").pakets, vec![b"\xC0b\xC1".to_vec()]);
}

#[test]
fn too_long_pakets_are_dropped_whole() {
    let mut extractor = PaketsExtractor::new();
    let mut longest = vec![b'a'; Message::MAX_PAKET_U8_LEN - 1];
    longest.push(0xC1);
    assert_eq!(
        process(&mut extractor, &longest),
        ProcessedBuffer { pakets: vec![longest.clone()], reports: vec![] }
    );
    let mut longer = vec![b'a'; Message::MAX_PAKET_U8_LEN];
    longer.push(0xC1);
    let report = ExtractorReport::TooLongPaket { paket_u8_len: Message::MAX_PAKET_U8_LEN + 1 };
    assert_eq!(
        report.text(),
        "A too long paket arrived, it had 25201 bytes. Such paket will be dropped."
    );
    assert_eq!(
        process(&mut extractor, &longer),
        ProcessedBuffer { pakets: vec![], reports: vec![report] }
    );
    assert!(!extractor.is_reinitialising());
    let stream = [b"\xC0x\xC1".to_vec(), longer.clone(), b"\xC0y\xC1".to_vec(), longer].concat();
    for size in [1, 2, 999, 1000, 25200, 25201, 25205, 60000] {
        let mut extractor = PaketsExtractor::new();
        let mut pakets: Vec<Vec<u8>> = Vec::new();
        let mut reports = 0;
        for buffer in stream.chunks(size) {
            let mut processed = process(&mut extractor, buffer);
            pakets.append(&mut processed.pakets);
            reports += processed.reports.len();
        }
        assert_eq!(pakets, vec![b"\xC0x\xC1".to_vec(), b"\xC0y\xC1".to_vec()]);
        assert_eq!(reports, 2);
        assert!(!extractor.is_reinitialising());
    }
}

#[test]
fn a_too_long_fragment_behind_a_paket_is_given_up() {
    let mut extractor = PaketsExtractor::new();
    let mut buffer = b"\xC0x\xC1".to_vec();
    buffer.extend_from_slice(&vec![b'a'; Message::MAX_PAKET_U8_LEN + 1]);
    let processed = process(&mut extractor, &buffer);
    assert_eq!(processed.pakets, vec![b"\xC0x\xC1".to_vec()]);
    assert_eq!(
        processed.reports,
        vec![ExtractorReport::TooLongPaket { paket_u8_len: Message::MAX_PAKET_U8_LEN + 1 }]
    );
    assert!(extractor.is_reinitialising());
}

#[test]
fn ends_of_the_extraction() {
    let mut extractor = PaketsExtractor::new();
    assert_eq!(extractor.step(ReadEvent::Cancelled), ExtractorAction::StopCancelled);
    assert_eq!(extractor.step(ReadEvent::Failed), ExtractorAction::StopFailed);
    assert_eq!(
        extractor.step(ReadEvent::Read { buffer: vec![] }),
        ExtractorAction::StopInterrupted
    );
    assert_eq!(
        extractor.process_pakets_buffer(&vec![]).reports,
        vec![ExtractorReport::Unusual(UnusualEmptyEntity {
            entity: "actual_fragments".to_string()
        })]
    );
}

#[test]
fn newlines_are_stripped() {
    let mut line = b"ab\n\n".to_vec();
    assert!(strip_newline(&mut line));
    assert_eq!(line, b"ab\n".to_vec());
    let mut open = b"ab".to_vec();
    assert!(!strip_newline(&mut open));
    assert_eq!(open, b"ab".to_vec());
    let mut empty: Vec<u8> = vec![];
    assert!(!strip_newline(&mut empty));
}

#[test]
fn outcomes_of_prompts() {
    let username = Username::new("u").unwrap();
    assert_eq!(prompt_outcome(&username, vec![]), PromptOutcome::Empty);
    assert_eq!(
        prompt_outcome(&username, vec![b'a', 0xC0, b'b']),
        PromptOutcome::NotUtf8(Utf8Failure {
            bytes: vec![b'a', 0xC0, b'b'],
            valid_up_to: 1,
            error_len: Some(1),
        })
    );
    let expected = b"\xC0{\"username\":\"u\",\"content\":\"hi\"}\xC1".to_vec();
    assert_eq!(
        prompt_outcome(&username, b"hi".to_vec()),
        PromptOutcome::Pakets(expected.clone())
    );
    assert_eq!(
        chunk_outcome(&username, b"hi\n".to_vec()),
        (PromptOutcome::Pakets(expected.clone()), true)
    );
    assert_eq!(
        chunk_outcome(&username, b"hi".to_vec()),
        (PromptOutcome::Pakets(expected), false)
    );
    assert_eq!(chunk_outcome(&username, b"\n".to_vec()), (PromptOutcome::Empty, true));
}

#[test]
fn round_of_a_client() {
    let mut client = Stdin2Tcp::new(&Username::new("u").unwrap());
    let show = StdinAction::ShowPrompt { report: None };
    assert_eq!(client.step(StdinEvent::PromptNotShown), show);
    assert_eq!(client.step(StdinEvent::PromptShown), StdinAction::Read);
    assert_eq!(client.step(StdinEvent::Read { chunk: b"h".to_vec() }), StdinAction::Read);
    assert_eq!(
        client.step(StdinEvent::Read { chunk: b"i\n".to_vec() }),
        StdinAction::Write {
            pakets: b"\xC0{\"username\":\"u\",\"content\":\"hi\"}\xC1".to_vec()
        }
    );
    assert_eq!(client.step(StdinEvent::Written), show);
    assert_eq!(client.step(StdinEvent::PromptShown), StdinAction::Read);
    assert_eq!(client.step(StdinEvent::Read { chunk: b"\n".to_vec() }), show);
    assert_eq!(client.step(StdinEvent::PromptShown), StdinAction::Read);
    assert_eq!(client.step(StdinEvent::Read { chunk: vec![] }), show);
    assert_eq!(client.step(StdinEvent::PromptShown), StdinAction::Read);
    assert_eq!(client.step(StdinEvent::Read { chunk: b"end of input".to_vec() }), StdinAction::Read);
    assert!(matches!(
        client.step(StdinEvent::Read { chunk: vec![] }),
        StdinAction::Write { .. }
    ));
    assert_eq!(client.step(StdinEvent::WriteFailed), StdinAction::Fail);
    assert_eq!(client.step(StdinEvent::Written), show);
    assert_eq!(client.step(StdinEvent::PromptShown), StdinAction::Read);
    assert_eq!(
        client.step(StdinEvent::Read { chunk: b"\xFF\n".to_vec() }),
        StdinAction::ShowPrompt {
            report: Some(Utf8Failure { bytes: vec![0xFF], valid_up_to: 0, error_len: Some(1) })
        }
    );
    assert_eq!(client.step(StdinEvent::Cancelled), StdinAction::Stop);
    assert_eq!(client.step(StdinEvent::PromptShown), StdinAction::Read);
    assert_eq!(client.step(StdinEvent::ReadFailed), StdinAction::Fail);
}

#[test]
fn userids() {
    let mut manager = ServerManager::new();
    assert_eq!(manager.next_userid(), 1);
    assert_eq!(manager.assign_userid(), 1);
    assert_eq!(manager.assign_userid(), 2);
    assert_eq!(manager.next_userid(), 3);
    assert!(manager.accepts_another(0));
    assert!(manager.accepts_another(1999));
    assert!(!manager.accepts_another(2000));
    assert!(!manager.accepts_another(2001));
}

#[test]
fn several_prompts() {
    let username = Username::new("u").unwrap();
    let mut client = Stdin2Tcp::new(&username);
    let mut written: Vec<u8> = Vec::new();
    for (chunks, text) in
        [(vec!["ab", "c\n"], "abc"), (vec!["\n"], ""), (vec!["d\ne", "\n"], "d\ne")]
    {
        assert_eq!(client.step(StdinEvent::PromptShown), StdinAction::Read);
        let mut sent: Vec<u8> = Vec::new();
        for chunk in chunks {
            let chunk = chunk.as_bytes().to_vec();
            if let StdinAction::Write { pakets } = client.step(StdinEvent::Read { chunk }) {
                sent.extend_from_slice(&pakets);
                client.step(StdinEvent::Written);
            }
        }
        assert_eq!(sent, Message::pakets_of_text(&username, text));
        written.append(&mut sent);
    }
    let both = [Message::new(&username, "abc"), Message::new(&username, "d\ne")];
    let expected: Vec<u8> = both.into_iter().flat_map(|msg| msg.unwrap().paket()).collect();
    assert_eq!(written, expected);
}

#[test]
fn accepted_connections() {
    let mut manager = ServerManager::new();
    let accepted = |connected: usize| AcceptEvent::Accepted { connected };
    assert_eq!(manager.step(accepted(0)), AcceptAction::Serve { userid: 1 });
    assert_eq!(manager.step(AcceptEvent::Failed), AcceptAction::Report);
    assert_eq!(manager.step(accepted(1999)), AcceptAction::Serve { userid: 2 });
    assert_eq!(manager.step(accepted(1)), AcceptAction::Serve { userid: 3 });
    assert_eq!(manager.step(accepted(2000)), AcceptAction::Stop);
    assert_eq!(manager.next_userid(), 4);
}

#[test]
fn ends_of_a_handler() {
    let finished: Result<Result<(), &str>, u8> = Ok(Ok(()));
    assert_eq!(client_handler_outcome(7, "addr", finished), Ok(()));
    let failed: Result<Result<(), &str>, u8> = Ok(Err("task"));
    assert_eq!(
        client_handler_outcome(7, "addr", failed),
        Err(ClientHandlerError {
            id: 7,
            address: "addr",
            cause: ClientHandlerErrorCause::Task("task"),
        })
    );
    let lost: Result<Result<(), &str>, u8> = Err(9);
    assert_eq!(
        client_handler_outcome(7, "addr", lost),
        Err(ClientHandlerError {
            id: 7,
            address: "addr",
            cause: ClientHandlerErrorCause::Join(9),
        })
    );
}

fn cause(first: Option<Result<Message, MsgFromPaketError>>) -> String {
    match ClientReader::greet(4, first) {
        Err(NoHelo { cause }) => cause,
        Ok(_) => panic!("This was no greeting"),
    }
}

#[test]
fn greetings() {
    let username = Username::new("peppino").unwrap();
    assert_eq!(cause(None), "The channel receiving the extracted pakets is closed.");
    assert_eq!(
        cause(Some(Err(MsgFromPaketError::EmptyPaket))),
        "The first paket received could not be converted to a message."
    );
    assert_eq!(
        cause(Some(Ok(Message::new(&username, "hello").unwrap()))),
        "The content of the first message was not 'helo' as it was supposed to be."
    );
    let (client, welcome) =
        ClientReader::greet(4, Some(Ok(Message::craft_msg_helo(&username)))).unwrap();
    assert_eq!(welcome.get_userid(), 4);
    assert_eq!(
        welcome.get_bytes(),
        Message::craft_msg_change_status(&username, UserStatus::Present).paket()
    );
    assert_eq!(welcome.bytes_for(4), None);
    match client.step(ClientEvent::Paket(Some(vec![5, 6]))) {
        ClientAction::Send(dispatch) => {
            assert_eq!(dispatch.get_userid(), 4);
            assert_eq!(dispatch.get_bytes(), vec![5, 6]);
        }
        action => panic!("{action:?}"),
    }
    assert!(matches!(client.step(ClientEvent::Paket(None)), ClientAction::Wait));
    match client.step(ClientEvent::Cancelled) {
        ClientAction::SendAndStop(dispatch) => {
            assert_eq!(dispatch.get_userid(), 4);
            assert_eq!(
                dispatch.get_bytes(),
                Message::craft_msg_change_status(&username, UserStatus::Absent).paket()
            );
            assert_eq!(dispatch.bytes_for(4), None);
        }
        action => panic!("{action:?}"),
    }
}

#[test]
fn small_errors() {
    assert_eq!(small_error_text("oops"), "##SmallError. Error: oops");
    let err = TextValidityError::TooLong {
        kind_of_entity: "username".to_string(),
        actual_entity: "abc".to_string(),
        max_len: 2,
        actual_len: 3,
    };
    assert_eq!(
        small_error_text(&err.text()),
        "##SmallError. Error: Too long username (expected at most 2 chars, found 3): [[abc]]."
    );
}

#[test]
fn texts_of_errors() {
    let unusual = UnusualEmptyEntity { entity: "last_fragment".to_string() };
    let text = "Unusual None returned from 'last_fragment' in 'message_paketer'.";
    assert_eq!(unusual.text(), text);
    assert_eq!(ExtractorReport::Unusual(unusual).text(), text);
    assert_eq!(
        ExtractorReport::TooLongPaket { paket_u8_len: usize::MAX }.text(),
        format!("A too long paket arrived, it had {} bytes. Such paket will be dropped.", usize::MAX)
    );
    assert_eq!(
        NoHelo { cause: "nothing".to_string() }.text(),
        "Could not receive the 'helo' message from the client. The cause was: [[nothing]]"
    );
    let err: ClientHandlerError<u8, u8, u8> =
        ClientHandlerError { id: 120, address: 0, cause: ClientHandlerErrorCause::Join(1) };
    assert_eq!(
        err.text("127.0.0.1:80", "lost"),
        "The client_handler with id 120 handling the address 127.0.0.1:80 failed. The cause was: lost"
    );
}

#[test]
fn shown_lines() {
    let msg = Message::new(&Username::new("peppino").unwrap(), "ciao").unwrap();
    assert_eq!(msg.shown_line(), "peppino:> ciao");
}
