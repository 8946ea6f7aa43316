use dashboard_sockets::config::Config;
use dashboard_sockets::message::{Message, RequestTypes};
use dashboard_sockets::pages::{route, Page, Pages, PagesAction, PagesEvent, Route};
use dashboard_sockets::reader::{Reader, ReaderAction, ReaderEvent};
use dashboard_sockets::token::TokenState;
use jsonwebtoken::{encode, get_current_timestamp, EncodingKey, Header};
use serde_json::Value;

type Request = RequestTypes<u32>;

fn page(path: &str) -> Request {
    RequestTypes::Page(path.to_string())
}

fn login() -> ReaderAction<u32> {
    ReaderAction::Send(Some(page("/login")))
}

/// Hands one request to a reader that waits for a frame, with a queue that takes
/// everything, and collects what the reader does until it waits again or stops.
fn ask(
    reader: Reader<u32>,
    pass: bool,
    request: Request,
    state: TokenState,
) -> (Reader<u32>, Vec<ReaderAction<u32>>) {
    let frame = ReaderEvent::Incoming(Some(Message::Text("{}".to_string())));
    let (reader, action) = reader.step_with(pass, frame, state);
    assert_eq!(action, ReaderAction::Parse("{}".to_string()));
    let mut done = Vec::new();
    let (mut reader, mut action) = reader.step_with(pass, ReaderEvent::Parsed(Some(request)), state);
    while let ReaderAction::Send(_) = action {
        done.push(action);
        (reader, action) = reader.step_with(pass, ReaderEvent::Sent(true), state);
    }
    done.push(action);
    (reader, done)
}

#[test]
fn first_page_opens_without_quit_and_the_next_one_with() {
    let state = TokenState::ValidToken;
    let (reader, done) = ask(Reader::new(), true, page("/"), state);
    assert_eq!(done, vec![ReaderAction::Send(Some(page("/"))), ReaderAction::Read]);
    let (reader, done) = ask(reader, true, RequestTypes::Cmd(7), state);
    assert_eq!(done, vec![ReaderAction::Send(Some(RequestTypes::Cmd(7))), ReaderAction::Read]);
    let (_, done) = ask(reader, true, page("/process"), state);
    assert_eq!(
        done,
        vec![
            ReaderAction::Send(None),
            ReaderAction::Send(Some(page("/process"))),
            ReaderAction::Read
        ]
    );
}

#[test]
fn refused_first_request_leads_to_login() {
    let (reader, done) = ask(Reader::new(), true, page("/"), TokenState::InvalidToken);
    assert_eq!(done, vec![login(), ReaderAction::Read]);
    let (_, done) = ask(reader, true, page("/"), TokenState::ValidToken);
    assert_eq!(done, vec![ReaderAction::Send(Some(page("/"))), ReaderAction::Read]);
}

#[test]
fn refused_later_request_makes_the_page_quit() {
    let (reader, _) = ask(Reader::new(), true, page("/"), TokenState::ValidToken);
    let (_, done) = ask(reader, true, RequestTypes::Cmd(1), TokenState::InvalidToken);
    assert_eq!(done, vec![ReaderAction::Send(None), login(), ReaderAction::Read]);
}

#[test]
fn missing_fingerprint_ends_the_reader_after_login() {
    let (reader, done) = ask(Reader::new(), true, page("/"), TokenState::NoFingerprint);
    assert_eq!(done, vec![login(), ReaderAction::Stop]);
    let (_, action) =
        reader.step_with(true, ReaderEvent::Incoming(Some(Message::Other)), TokenState::ValidToken);
    assert_eq!(action, ReaderAction::Stop);
}

#[test]
fn token_is_kept_where_login_is_needed_and_passed_on_elsewhere() {
    let token = RequestTypes::Token("t".to_string());
    let (_, done) = ask(Reader::new(), true, token, TokenState::InvalidToken);
    assert_eq!(done, vec![ReaderAction::Read]);
    let token = RequestTypes::Token("t".to_string());
    let (_, done) = ask(Reader::new(), false, token, TokenState::InvalidToken);
    assert_eq!(
        done,
        vec![
            ReaderAction::Send(Some(RequestTypes::Token("t".to_string()))),
            ReaderAction::Read
        ]
    );
}

#[test]
fn without_login_every_request_is_passed_on() {
    let state = TokenState::InvalidToken;
    let (reader, done) = ask(Reader::new(), false, RequestTypes::Cmd(1), state);
    assert_eq!(done, vec![ReaderAction::Send(Some(RequestTypes::Cmd(1))), ReaderAction::Read]);
    let (reader, done) = ask(reader, false, page("/a"), state);
    assert_eq!(done, vec![ReaderAction::Send(Some(page("/a"))), ReaderAction::Read]);
    let (_, done) = ask(reader, false, page("/b"), state);
    assert_eq!(
        done,
        vec![ReaderAction::Send(None), ReaderAction::Send(Some(page("/b"))), ReaderAction::Read]
    );
}

#[test]
fn frames_without_a_request_are_passed_over() {
    let state = TokenState::ValidToken;
    let reader: Reader<u32> = Reader::new();
    let binary = ReaderEvent::Incoming(Some(Message::Binary(vec![1])));
    let (reader, action) = reader.step_with(true, binary, state);
    assert_eq!(action, ReaderAction::Read);
    let (reader, action) = reader.step_with(true, ReaderEvent::Incoming(Some(Message::Other)), state);
    assert_eq!(action, ReaderAction::Read);
    let text = ReaderEvent::Incoming(Some(Message::Text("nonsense".to_string())));
    let (reader, action) = reader.step_with(true, text, state);
    assert_eq!(action, ReaderAction::Parse("nonsense".to_string()));
    let (reader, action) = reader.step_with(true, ReaderEvent::Parsed(None), state);
    assert_eq!(action, ReaderAction::Read);
    let (_, action) = reader.step_with(true, ReaderEvent::Incoming(Some(Message::Close)), state);
    assert_eq!(action, ReaderAction::Stop);
}

#[test]
fn end_of_the_socket_ends_the_reader() {
    let reader: Reader<u32> = Reader::new();
    let (_, action) = reader.step_with(false, ReaderEvent::Incoming(None), TokenState::ValidToken);
    assert_eq!(action, ReaderAction::Stop);
}

#[test]
fn queue_that_takes_no_request_ends_the_reader() {
    let state = TokenState::ValidToken;
    let text = || ReaderEvent::Incoming(Some(Message::Text(String::new())));
    let (reader, _) = Reader::new().step_with(true, text(), state);
    let (reader, action) = reader.step_with(true, ReaderEvent::Parsed(Some(page("/"))), state);
    assert_eq!(action, ReaderAction::Send(Some(page("/"))));
    let (_, action) = reader.step_with(true, ReaderEvent::Sent(false), state);
    assert_eq!(action, ReaderAction::Stop);
}

#[test]
fn queue_that_takes_no_login_does_not_end_the_reader() {
    let state = TokenState::InvalidToken;
    let text = ReaderEvent::Incoming(Some(Message::Text(String::new())));
    let (reader, _) = Reader::new().step_with(true, text, state);
    let (reader, action) = reader.step_with(true, ReaderEvent::Parsed(Some(page("/"))), state);
    assert_eq!(action, login());
    let (_, action) = reader.step_with(true, ReaderEvent::Sent(false), state);
    assert_eq!(action, ReaderAction::Read);
}

#[test]
fn reader_looks_at_the_token_it_was_sent_last() {
    let mut claims = serde_json::Map::new();
    claims.insert("exp".to_string(), Value::from(get_current_timestamp() + 3600));
    claims.insert("iat".to_string(), Value::from(get_current_timestamp()));
    claims.insert("iss".to_string(), Value::from("DietPi Dashboard"));
    claims.insert("fingerprint".to_string(), Value::from("abc"));
    let token = encode(&Header::default(), &claims, &EncodingKey::from_secret(b"s")).unwrap();
    let config = Config {
        pass: true,
        secret: "s".to_string(),
        terminal_user: String::new(),
    };
    let text = || ReaderEvent::Incoming(Some(Message::Text(String::new())));
    let reader: Reader<u32> = Reader::new();
    let (reader, _) = reader.step(&config, Some("abc"), text());
    let (reader, action) = reader.step(&config, Some("abc"), ReaderEvent::Parsed(Some(page("/"))));
    assert_eq!(action, login());
    let (reader, action) = reader.step(&config, Some("abc"), ReaderEvent::Sent(true));
    assert_eq!(action, ReaderAction::Read);
    let (reader, _) = reader.step(&config, Some("abc"), text());
    let sent = ReaderEvent::Parsed(Some(RequestTypes::Token(token)));
    let (reader, action) = reader.step(&config, Some("abc"), sent);
    assert_eq!(action, ReaderAction::Read);
    let (reader, _) = reader.step(&config, Some("abc"), text());
    let (_, action) = reader.step(&config, Some("abc"), ReaderEvent::Parsed(Some(page("/"))));
    assert_eq!(action, ReaderAction::Send(Some(page("/"))));
}

#[test]
fn paths_of_the_pages() {
    assert_eq!(route("/"), Route::To(Page::Main));
    assert_eq!(route("/process"), Route::To(Page::Process));
    assert_eq!(route("/software"), Route::To(Page::Software));
    assert_eq!(route("/management"), Route::To(Page::Management));
    assert_eq!(route("/service"), Route::To(Page::Service));
    assert_eq!(route("/browser"), Route::To(Page::Browser));
    assert_eq!(route("/login"), Route::Login);
    assert_eq!(route("/Process"), Route::Unknown);
    assert_eq!(route(""), Route::Unknown);
}

fn greeted() -> Pages {
    let (pages, action) = Pages::start();
    assert_eq!(action, PagesAction::Greet);
    let (pages, action) = pages.step(PagesEvent::<u32>::Sent(true));
    assert_eq!(action, PagesAction::Receive);
    pages
}

#[test]
fn client_that_takes_no_greeting_is_given_up() {
    let (pages, _) = Pages::start();
    let (_, action) = pages.step(PagesEvent::<u32>::Sent(false));
    assert_eq!(action, PagesAction::Stop);
}

#[test]
fn page_serves_until_it_is_left() {
    let (pages, action) = greeted().step(PagesEvent::Received(Some(Some(page("/software")))));
    assert_eq!(action, PagesAction::Open(Page::Software));
    let (pages, action) = pages.step(PagesEvent::<u32>::Left(false));
    assert_eq!(action, PagesAction::Receive);
    let (pages, action) = pages.step(PagesEvent::Received(Some(Some(page("/")))));
    assert_eq!(action, PagesAction::Open(Page::Main));
    let (_, action) = pages.step(PagesEvent::<u32>::Left(true));
    assert_eq!(action, PagesAction::Stop);
}

#[test]
fn login_page_asks_for_a_new_login() {
    let (pages, action) = greeted().step(PagesEvent::Received(Some(Some(page("/login")))));
    assert_eq!(action, PagesAction::SendText("{\"reauth\": true}".to_string()));
    let (pages, action) = pages.step(PagesEvent::<u32>::Sent(true));
    assert_eq!(action, PagesAction::Receive);
    let (pages, _) = pages.step(PagesEvent::Received(Some(Some(page("/login")))));
    let (_, action) = pages.step(PagesEvent::<u32>::Sent(false));
    assert_eq!(action, PagesAction::Stop);
}

#[test]
fn what_leads_to_no_page_is_passed_over() {
    let (pages, action) = greeted().step(PagesEvent::Received(Some(Some(page("/nowhere")))));
    assert_eq!(action, PagesAction::Receive);
    let (_, action) = pages.step(PagesEvent::Received(Some(Some(RequestTypes::Cmd(1)))));
    assert_eq!(action, PagesAction::Receive);
}

#[test]
fn quit_without_an_open_page_ends_the_socket() {
    let (_, action) = greeted().step(PagesEvent::<u32>::Received(Some(None)));
    assert_eq!(action, PagesAction::Stop);
    let (_, action) = greeted().step(PagesEvent::<u32>::Received(None));
    assert_eq!(action, PagesAction::Stop);
}

#[test]
fn request_that_was_refused_never_leaves_the_reader() {
    let refused = TokenState::InvalidToken;
    let (reader, done) = ask(Reader::new(), true, RequestTypes::Cmd(1), refused);
    assert_eq!(done, vec![login(), ReaderAction::Read]);
    let (reader, done) = ask(reader, true, page("/"), TokenState::ValidToken);
    assert_eq!(done, vec![ReaderAction::Send(Some(page("/"))), ReaderAction::Read]);
    let (_, done) = ask(reader, true, RequestTypes::Cmd(2), refused);
    assert_eq!(done, vec![ReaderAction::Send(None), login(), ReaderAction::Read]);
}

#[test]
fn way_to_login_opens_no_page() {
    let sent = PagesEvent::Received(Some(Some(page("/login"))));
    let (_, action) = greeted().step::<u32>(sent);
    assert_eq!(action, PagesAction::SendText("{\"reauth\": true}".to_string()));
    let (_, action) = greeted().step::<u32>(PagesEvent::Received(Some(None)));
    assert_eq!(action, PagesAction::Stop);
}
