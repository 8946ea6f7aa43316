use dashboard_sockets::config::Config;
use dashboard_sockets::file::{
    file_command, file_handler_helper, file_size, get_file_req, FileCommand, FileError,
    FileHandlerHelperReturns, FileOutcome, FileRequest, FileSize, CHUNK_SIZE,
};
use dashboard_sockets::file_session::{FileAction, FileEvent, FileSession};
use dashboard_sockets::message::Message;
use dashboard_sockets::text::{parse_number, same_text, strip_prefix};
use dashboard_sockets::token::TokenState;
use jsonwebtoken::{encode, get_current_timestamp, EncodingKey, Header};
use serde_json::Value;

fn request(cmd: &str, arg: &str) -> FileRequest {
    FileRequest {
        path: "/tmp/x".to_string(),
        cmd: cmd.to_string(),
        arg: arg.to_string(),
    }
}

fn text() -> FileEvent {
    FileEvent::Incoming(Some(Message::Text("{}".to_string())))
}

fn step(session: FileSession, event: FileEvent) -> (FileSession, FileAction) {
    session.step_with(true, event, TokenState::ValidToken)
}

fn working(request: &FileRequest) -> FileSession {
    let (session, action) = step(FileSession::new(), text());
    assert_eq!(action, FileAction::Parse("{}".to_string()));
    let (session, action) = step(session, FileEvent::Parsed(Some(request.clone())));
    assert_eq!(action, FileAction::Work(request.clone()));
    session
}

#[test]
fn commands_are_told_apart() {
    assert_eq!(file_command("open"), FileCommand::Open);
    assert_eq!(file_command("dl"), FileCommand::Download);
    assert_eq!(file_command("up"), FileCommand::Upload);
    assert_eq!(file_command("save"), FileCommand::Save);
    assert_eq!(file_command("OPEN"), FileCommand::Nothing);
    assert_eq!(file_command(""), FileCommand::Nothing);
}

#[test]
fn sizes_are_rounded_up() {
    assert_eq!(file_size(0), FileSize { size: 0 });
    assert_eq!(file_size(1), FileSize { size: 1 });
    assert_eq!(file_size(1_000_000), FileSize { size: 1 });
    assert_eq!(file_size(1_000_001), FileSize { size: 2 });
    assert_eq!(file_size(2_500_000), FileSize { size: 3 });
    for len in [0usize, 999_999, 1_000_000, 7_000_001, 123_456_789_012, 9_007_199_254_740_991] {
        let exact = (len as f64 / f64::from(1000 * 1000)).ceil() as usize;
        assert_eq!(file_size(len), FileSize { size: exact });
    }
    assert_eq!(file_size(usize::MAX).size, usize::MAX / 1_000_000 + 1);
}

#[test]
fn numbers_are_parsed_as_the_standard_library_does() {
    let max = usize::MAX.to_string();
    let over = format!("{}0", usize::MAX);
    let next = format!("{}", usize::MAX as u128 + 1);
    for word in [
        "0", "12", "+12", "007", "", "+", "++1", "-1", " 1", "1 ", "1_0", "\u{663}", "1\u{e9}", "9a",
        max.as_str(), over.as_str(), next.as_str(),
    ] {
        assert_eq!(parse_number(word), word.parse::<usize>().ok(), "{word}");
    }
    assert_eq!(parse_number("+12"), Some(12));
}

#[test]
fn texts_are_compared_and_cut() {
    assert!(same_text("\u{e9}a", "\u{e9}a"));
    assert!(!same_text("ab", "ac"));
    assert!(!same_text("ab", "abc"));
    assert_eq!(strip_prefix("\u{e9}tat", "\u{e9}t"), Some("at"));
    assert_eq!(strip_prefix("abc", ""), Some("abc"));
    assert_eq!(strip_prefix("ab", "abc"), None);
    assert_eq!(strip_prefix("\u{e9}", "a"), None);
}

#[test]
fn only_text_frames_hold_requests() {
    assert_eq!(get_file_req(Message::Text("a".to_string())), Some("a".to_string()));
    assert_eq!(get_file_req(Message::Binary(vec![97])), None);
    assert_eq!(get_file_req(Message::Close), None);
    assert_eq!(get_file_req(Message::Other), None);
}

#[test]
fn answers_to_file_requests() {
    assert_eq!(
        file_handler_helper(&request("open", ""), FileOutcome::Text("a".to_string())),
        Ok(Some(FileHandlerHelperReturns::String("a".to_string())))
    );
    assert_eq!(
        file_handler_helper(&request("dl", ""), FileOutcome::Bytes(vec![7; 1_000_001])),
        Ok(Some(FileHandlerHelperReturns::SizeBuf(FileSize { size: 2 }, vec![7; 1_000_001])))
    );
    assert_eq!(
        file_handler_helper(&request("up", "5"), FileOutcome::Done),
        Ok(Some(FileHandlerHelperReturns::StreamUpload(5)))
    );
    assert_eq!(
        file_handler_helper(&request("up", "five"), FileOutcome::Done),
        Err(FileError::InvalidMaxSize)
    );
    assert_eq!(file_handler_helper(&request("save", "a"), FileOutcome::Done), Ok(None));
    assert_eq!(file_handler_helper(&request("rm", ""), FileOutcome::Done), Ok(None));
    for cmd in ["open", "dl", "up", "save"] {
        let failed = file_handler_helper(&request(cmd, "5"), FileOutcome::Failed);
        assert_eq!(failed, Err(FileError::Failed));
    }
}

#[test]
fn text_of_a_file_is_sent() {
    let session = working(&request("open", ""));
    let reply = FileHandlerHelperReturns::String("a".to_string());
    let (session, action) = step(session, FileEvent::Answered(Ok(Some(reply))));
    assert_eq!(action, FileAction::SendText("a".to_string()));
    let (_, action) = step(session, FileEvent::Sent(true));
    assert_eq!(action, FileAction::Read);
}

#[test]
fn download_is_sent_in_chunks() {
    let bytes: Vec<u8> = (0..2_500_000u32).map(|i| (i % 251) as u8).collect();
    let asked = request("dl", "");
    let reply = file_handler_helper(&asked, FileOutcome::Bytes(bytes.clone()));
    let (mut session, action) = step(working(&asked), FileEvent::Answered(reply));
    assert_eq!(action, FileAction::SendSize(FileSize { size: 3 }));
    let mut sent = Vec::new();
    let mut sizes = Vec::new();
    loop {
        let (next, action) = step(session, FileEvent::Sent(true));
        session = next;
        match action {
            FileAction::SendBytes(part) => {
                sizes.push(part.len());
                sent.extend(part);
            }
            action => {
                assert_eq!(action, FileAction::Flush);
                break;
            }
        }
    }
    assert_eq!(sizes, vec![CHUNK_SIZE, CHUNK_SIZE, 500_000]);
    assert_eq!(sent, bytes);
    let (_, action) = step(session, FileEvent::Sent(true));
    assert_eq!(action, FileAction::Read);
}

#[test]
fn empty_and_even_downloads() {
    for (len, chunks) in [(0usize, 0usize), (1_000_000, 1), (2_000_000, 2)] {
        let asked = request("dl", "");
        let reply = file_handler_helper(&asked, FileOutcome::Bytes(vec![1; len]));
        let (mut session, _) = step(working(&asked), FileEvent::Answered(reply));
        for _ in 0..chunks {
            let (next, action) = step(session, FileEvent::Sent(true));
            assert_eq!(action, FileAction::SendBytes(vec![1; 1_000_000]));
            session = next;
        }
        let (_, action) = step(session, FileEvent::Sent(true));
        assert_eq!(action, FileAction::Flush);
    }
}

#[test]
fn socket_that_takes_nothing_is_given_up() {
    let reply = || FileHandlerHelperReturns::SizeBuf(FileSize { size: 1 }, vec![1, 2]);
    let asked = request("dl", "");
    let (session, _) = step(working(&asked), FileEvent::Answered(Ok(Some(reply()))));
    let (_, action) = step(session, FileEvent::Sent(false));
    assert_eq!(action, FileAction::Stop);
    let (session, _) = step(working(&asked), FileEvent::Answered(Ok(Some(reply()))));
    let (session, action) = step(session, FileEvent::Sent(true));
    assert_eq!(action, FileAction::SendBytes(vec![1, 2]));
    let (session, action) = step(session, FileEvent::Sent(false));
    assert_eq!(action, FileAction::Stop);
    let (_, action) = step(session, text());
    assert_eq!(action, FileAction::Stop);
}

#[test]
fn size_that_cannot_be_encoded_starts_the_work_again() {
    let asked = request("dl", "");
    let reply = FileHandlerHelperReturns::SizeBuf(FileSize { size: 0 }, vec![]);
    let (session, _) = step(working(&asked), FileEvent::Answered(Ok(Some(reply))));
    let (_, action) = step(session, FileEvent::Unencodable);
    assert_eq!(action, FileAction::Work(asked));
}

#[test]
fn upload_takes_binary_frames() {
    let asked = request("up", "1");
    let reply = file_handler_helper(&asked, FileOutcome::Done);
    let (mut session, action) = step(working(&asked), FileEvent::Answered(reply));
    assert_eq!(action, FileAction::Receive);
    for part in [vec![1, 2], vec![3]] {
        let frame = FileEvent::Incoming(Some(Message::Binary(part.clone())));
        let (next, action) = step(session, frame);
        assert_eq!(action, FileAction::Store(part));
        let (next, action) = step(next, FileEvent::Stored(true));
        assert_eq!(action, FileAction::Receive);
        session = next;
    }
    let (_, action) = step(session, text());
    assert_eq!(action, FileAction::Read);
}

#[test]
fn upload_of_nothing_takes_no_frame() {
    let asked = request("up", "0");
    let reply = file_handler_helper(&asked, FileOutcome::Done);
    let (_, action) = step(working(&asked), FileEvent::Answered(reply));
    assert_eq!(action, FileAction::Read);
}

#[test]
fn upload_that_cannot_be_stored_is_dropped() {
    let asked = request("up", "1");
    let reply = file_handler_helper(&asked, FileOutcome::Done);
    let (session, _) = step(working(&asked), FileEvent::Answered(reply));
    let (session, _) = step(session, FileEvent::Incoming(Some(Message::Binary(vec![1]))));
    let (_, action) = step(session, FileEvent::Stored(false));
    assert_eq!(action, FileAction::Read);
}

#[test]
fn failed_work_is_done_again() {
    let asked = request("open", "");
    let (session, action) = step(working(&asked), FileEvent::Answered(Err(FileError::Failed)));
    assert_eq!(action, FileAction::Work(asked));
    let (_, action) = step(session, FileEvent::Answered(Ok(None)));
    assert_eq!(action, FileAction::Read);
}

#[test]
fn frame_during_work_replaces_the_request() {
    let (session, action) = step(working(&request("dl", "")), text());
    assert_eq!(action, FileAction::Parse("{}".to_string()));
    let next = request("open", "");
    let parsed = FileEvent::Parsed(Some(next.clone()));
    let (session, action) = session.step_with(true, parsed, TokenState::InvalidToken);
    assert_eq!(action, FileAction::Work(next));
    let (_, action) = step(session, FileEvent::Incoming(Some(Message::Close)));
    assert_eq!(action, FileAction::Read);
}

#[test]
fn end_of_the_socket_during_work_gives_it_up() {
    let (_, action) = step(working(&request("dl", "")), FileEvent::Incoming(None));
    assert_eq!(action, FileAction::Stop);
    let (_, action) = step(FileSession::new(), FileEvent::Incoming(None));
    assert_eq!(action, FileAction::Stop);
    let (_, action) = step(FileSession::new(), FileEvent::Incoming(Some(Message::Close)));
    assert_eq!(action, FileAction::Stop);
}

#[test]
fn frame_without_a_request_is_passed_over() {
    let (session, action) = step(FileSession::new(), FileEvent::Incoming(Some(Message::Other)));
    assert_eq!(action, FileAction::Read);
    let (session, _) = step(session, text());
    let (_, action) = step(session, FileEvent::Parsed(None));
    assert_eq!(action, FileAction::Read);
}

#[test]
fn refused_client_is_given_up() {
    for state in [TokenState::InvalidToken, TokenState::NoFingerprint] {
        let (session, _) = FileSession::new().step_with(true, text(), state);
        let parsed = FileEvent::Parsed(Some(request("open", "")));
        let (_, action) = session.step_with(true, parsed, state);
        assert_eq!(action, FileAction::Stop);
        let (session, _) = FileSession::new().step_with(false, text(), state);
        let parsed = FileEvent::Parsed(Some(request("open", "")));
        let (_, action) = session.step_with(false, parsed, state);
        assert_eq!(action, FileAction::Work(request("open", "")));
    }
}

#[test]
fn token_opens_the_files() {
    let mut claims = serde_json::Map::new();
    claims.insert("exp".to_string(), Value::from(get_current_timestamp() + 3600));
    claims.insert("fingerprint".to_string(), Value::from("abc"));
    let token = encode(&Header::default(), &claims, &EncodingKey::from_secret(b"s")).unwrap();
    let config = Config {
        pass: true,
        secret: "s".to_string(),
        terminal_user: String::new(),
    };
    for (fingerprint, served) in [(Some("abc"), true), (Some("x"), false), (None, false)] {
        let (session, _) = FileSession::new().step(&config, &token, fingerprint, text());
        let parsed = FileEvent::Parsed(Some(request("open", "")));
        let (_, action) = session.step(&config, &token, fingerprint, parsed);
        assert_eq!(action == FileAction::Work(request("open", "")), served);
        assert_eq!(action == FileAction::Stop, !served);
    }
}

#[test]
fn expired_token_opens_no_file() {
    let mut claims = serde_json::Map::new();
    claims.insert("exp".to_string(), Value::from(get_current_timestamp() - 3600));
    claims.insert("fingerprint".to_string(), Value::from("abc"));
    let token = encode(&Header::default(), &claims, &EncodingKey::from_secret(b"s")).unwrap();
    let config = Config {
        pass: true,
        secret: "s".to_string(),
        terminal_user: String::new(),
    };
    let (session, _) = FileSession::new().step(&config, &token, Some("abc"), text());
    let parsed = FileEvent::Parsed(Some(request("save", "text")));
    let (session, action) = session.step(&config, &token, Some("abc"), parsed);
    assert_eq!(action, FileAction::Stop);
    let (_, action) = session.step(&config, &token, Some("abc"), text());
    assert_eq!(action, FileAction::Stop);
}
