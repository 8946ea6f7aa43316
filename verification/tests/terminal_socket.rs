use dashboard_sockets::config::Config;
use dashboard_sockets::message::Message;
use dashboard_sockets::terminal::{
    login_command, open_terminal, Input, InputAction, InputEvent, Output, OutputAction, OutputEvent, TTYSize,
};

fn config(user: &str) -> Config {
    Config {
        pass: false,
        secret: String::new(),
        terminal_user: user.to_string(),
    }
}

fn text(text: &str) -> InputEvent {
    InputEvent::Incoming(Some(Message::Text(text.to_string())))
}

#[test]
fn configured_user_is_logged_in() {
    let command = login_command(&config("dietpi"));
    assert_eq!(command.program, "/bin/login");
    assert_eq!(command.args, vec!["-f".to_string(), "dietpi".to_string()]);
    assert_eq!(command.term, "xterm");
}

#[test]
fn manual_login_names_no_user() {
    let command = login_command(&config("manual"));
    assert_eq!(command.program, "/bin/login");
    assert!(command.args.is_empty());
}

#[test]
fn output_is_sent_as_far_as_it_was_read() {
    let mut output = Output::new();
    for (read, shown) in [(3, vec![1, 2, 3]), (0, vec![]), (4, vec![1, 2, 3, 0])] {
        let (next, action) = output.step(OutputEvent::Read(vec![1, 2, 3, 0], read));
        assert_eq!(action, OutputAction::Send(shown));
        let (next, action) = next.step(OutputEvent::Sent(true));
        assert_eq!(action, OutputAction::Read);
        output = next;
    }
    let (output, action) = output.step(OutputEvent::Failed);
    assert_eq!(action, OutputAction::Stop);
    let (_, action) = output.step(OutputEvent::Read(vec![1], 1));
    assert_eq!(action, OutputAction::Stop);
}

#[test]
fn output_ends_with_its_socket() {
    let (output, _) = Output::new().step(OutputEvent::Read(vec![1], 1));
    let (_, action) = output.step(OutputEvent::Sent(false));
    assert_eq!(action, OutputAction::Stop);
}

#[test]
fn text_and_binary_frames_are_input() {
    let (input, action) = Input::new().step(text("ls \u{e4}\n"));
    assert_eq!(action, InputAction::Write("ls \u{e4}\n".as_bytes().to_vec()));
    let (input, action) = input.step(InputEvent::Written(true));
    assert_eq!(action, InputAction::Read);
    let (input, action) = input.step(InputEvent::Incoming(Some(Message::Binary(vec![0, 255]))));
    assert_eq!(action, InputAction::Write(vec![0, 255]));
    let (_, action) = input.step(InputEvent::Written(false));
    assert_eq!(action, InputAction::Stop);
}

#[test]
fn size_is_set_on_the_terminal() {
    let (input, action) = Input::new().step(text("size{\"cols\":80,\"rows\":24}"));
    assert_eq!(action, InputAction::ParseSize("{\"cols\":80,\"rows\":24}".to_string()));
    let size = TTYSize { cols: 80, rows: 24 };
    let (input, action) = input.step(InputEvent::Sized(Some(size)));
    assert_eq!(action, InputAction::Resize(size));
    let (_, action) = input.step(InputEvent::Resized(false));
    assert_eq!(action, InputAction::Read);
}

#[test]
fn bad_size_is_passed_over() {
    let (input, action) = Input::new().step(text("size"));
    assert_eq!(action, InputAction::ParseSize(String::new()));
    let (_, action) = input.step(InputEvent::Sized(None));
    assert_eq!(action, InputAction::Read);
}

#[test]
fn text_that_only_resembles_a_size_is_input() {
    for word in ["siz", "Size1", "sizx", "si\u{17e}e", "siz\u{e9}", "", " size"] {
        let (_, action) = Input::new().step(text(word));
        assert_eq!(action, InputAction::Write(word.as_bytes().to_vec()));
    }
}

#[test]
fn other_frames_are_no_input() {
    let (input, action) = Input::new().step(InputEvent::Incoming(Some(Message::Other)));
    assert_eq!(action, InputAction::Read);
    let (_, action) = input.step(InputEvent::Incoming(Some(Message::Close)));
    assert_eq!(action, InputAction::Read);
}

#[test]
fn end_of_the_socket_has_the_shell_exit() {
    let (input, action) = Input::new().step(InputEvent::Incoming(None));
    assert_eq!(action, InputAction::Write(b"exit\n".to_vec()));
    let (input, action) = input.step(InputEvent::Written(true));
    assert_eq!(action, InputAction::Stop);
    let (_, action) = input.step(text("ls"));
    assert_eq!(action, InputAction::Stop);
}

#[test]
fn terminal_opens_only_for_clients_that_are_served() {
    let free = config("dietpi");
    assert_eq!(open_terminal(&free, "", None), Some(login_command(&free)));
    let closed = Config {
        pass: true,
        secret: "s".to_string(),
        terminal_user: "dietpi".to_string(),
    };
    assert_eq!(open_terminal(&closed, "a.b.c", Some("abc")), None);
    let mut claims = serde_json::Map::new();
    let exp = jsonwebtoken::get_current_timestamp() + 3600;
    claims.insert("exp".to_string(), serde_json::Value::from(exp));
    claims.insert("fingerprint".to_string(), serde_json::Value::from("abc"));
    let key = jsonwebtoken::EncodingKey::from_secret(b"s");
    let token = jsonwebtoken::encode(&jsonwebtoken::Header::default(), &claims, &key).unwrap();
    assert_eq!(open_terminal(&closed, &token, Some("abc")), Some(login_command(&closed)));
    assert_eq!(open_terminal(&closed, &token, None), None);
}
