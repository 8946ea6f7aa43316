//! The terminal socket: a login shell whose screen and keyboard are the client's.

use vstd::prelude::*;
#[allow(unused_imports)]
use vstd::string::*;
#[allow(unused_imports)]
use vstd::utf8::encode_utf8;

use crate::config::Config;
use crate::message::Message;
use crate::text::{same_text, strip_prefix};
use crate::token::authorize;
#[allow(unused_imports)]
use crate::message::{message_of, MessageModel};
#[allow(unused_imports)]
use crate::text::after_prefix;
#[allow(unused_imports)]
use crate::token::{admitted, possible_state, text_of, TokenState};

verus! {

/// The setting of the terminal user that leaves the choice to the client.
pub const MANUAL_USER: &'static str = "manual";

/// What a text starts with that gives the size of the client's screen.
pub const SIZE_PREFIX: &'static str = "size";

/// What makes a shell end.
pub const EXIT_LINE: &'static str = "exit\n";

/// A program to start in a terminal.
#[derive(Debug, PartialEq, Eq)]
pub struct LoginCommand {
    pub program: String,
    pub args: Vec<String>,
    /// The terminal type that the program is told, in `TERM`.
    pub term: String,
}

/// The characters of each of some strings.
pub open spec fn texts_of(texts: Seq<String>) -> Seq<Seq<char>> {
    texts.map_values(|text: String| text@)
}

/// What `login` is called with: nothing, where the client is to say who it is, else
/// the configured user, for whom no password is asked.
pub open spec fn login_args(user: Seq<char>) -> Seq<Seq<char>> {
    if user == MANUAL_USER@ {
        seq![]
    } else {
        seq!["-f"@, user]
    }
}

/// Whether a program is the one that a terminal runs for a user.
pub open spec fn logs_in(command: LoginCommand, user: Seq<char>) -> bool {
    &&& command.program@ == "/bin/login"@
    &&& texts_of(command.args@) == login_args(user)
    &&& command.term@ == "xterm"@
}

/// The program that a terminal runs.
pub fn login_command(config: &Config) -> (command: LoginCommand)
    ensures
        logs_in(command, config.terminal_user@),
{
    let mut args: Vec<String> = Vec::new();
    if !same_text(config.terminal_user.as_str(), MANUAL_USER) {
        args.push("-f".to_owned());
        args.push(config.terminal_user.clone());
    }
    assert(texts_of(args@) =~= login_args(config.terminal_user@));
    LoginCommand { program: "/bin/login".to_owned(), args, term: "xterm".to_owned() }
}

/// The program to start for a client, if the client is served.
pub fn open_terminal(config: &Config, token: &str, fingerprint: Option<&str>) -> (command: Option<
    LoginCommand,
>)
    ensures
        command matches Some(command) ==> logs_in(command, config.terminal_user@),
        !config.pass ==> command is Some,
        config.pass ==> exists|state: TokenState|
            #[trigger] possible_state(config.secret@, token@, text_of(fingerprint), state)
                && command is Some == admitted(true, state),
{
    if authorize(config, token, fingerprint) {
        Some(login_command(config))
    } else {
        None
    }
}

/// What the side that shows the terminal's output waits for.
#[derive(Debug, Clone, Copy, PartialEq, Eq, Structural)]
pub enum OutputPhase {
    /// The terminal's next output.
    Reading,
    /// The socket, which was handed output.
    Sending,
    /// Nothing any more.
    Stopped,
}

/// What happens to the side that shows the terminal's output.
#[derive(Debug, PartialEq, Eq)]
pub enum OutputEvent {
    /// Output was read into the first so many bytes of a buffer.
    Read(Vec<u8>, usize),
    /// Nothing can be read any more.
    Failed,
    /// The socket took output, or did not.
    Sent(bool),
}

/// The model of an [`OutputEvent`].
pub enum OutputEventModel {
    Read(Seq<u8>, nat),
    Failed,
    Sent(bool),
}

impl View for OutputEvent {
    type V = OutputEventModel;

    open spec fn view(&self) -> OutputEventModel {
        match self {
            OutputEvent::Read(buffer, read) => OutputEventModel::Read(buffer@, *read as nat),
            OutputEvent::Failed => OutputEventModel::Failed,
            OutputEvent::Sent(taken) => OutputEventModel::Sent(*taken),
        }
    }
}

/// What the side that shows the terminal's output wants done next.
#[derive(Debug, PartialEq, Eq)]
pub enum OutputAction {
    /// Read from the terminal.
    Read,
    /// Send output.
    Send(Vec<u8>),
    /// Stop showing output.
    Stop,
}

/// The model of an [`OutputAction`].
pub enum OutputActionModel {
    Read,
    Send(Seq<u8>),
    Stop,
}

impl View for OutputAction {
    type V = OutputActionModel;

    open spec fn view(&self) -> OutputActionModel {
        match self {
            OutputAction::Read => OutputActionModel::Read,
            OutputAction::Send(bytes) => OutputActionModel::Send(bytes@),
            OutputAction::Stop => OutputActionModel::Stop,
        }
    }
}

/// One step of the side that shows the terminal's output: what was read is sent,
/// however little, and then more is read, until the terminal or the socket fails. An
/// event that is not waited for ends it too.
pub open spec fn output_step(phase: OutputPhase, event: OutputEventModel) -> (
    OutputPhase,
    OutputActionModel,
) {
    match (phase, event) {
        (OutputPhase::Reading, OutputEventModel::Read(buffer, read)) => (
            OutputPhase::Sending,
            OutputActionModel::Send(buffer.take(read as int)),
        ),
        (OutputPhase::Sending, OutputEventModel::Sent(true)) => (
            OutputPhase::Reading,
            OutputActionModel::Read,
        ),
        _ => (OutputPhase::Stopped, OutputActionModel::Stop),
    }
}

/// The side of a terminal socket that shows the terminal's output.
#[derive(Debug, PartialEq, Eq)]
pub struct Output {
    phase: OutputPhase,
}

impl View for Output {
    type V = OutputPhase;

    closed spec fn view(&self) -> OutputPhase {
        self.phase
    }
}

impl Output {
    /// The side that shows the output of a new terminal.
    pub fn new() -> (output: Output)
        ensures
            output@ == OutputPhase::Reading,
    {
        Output { phase: OutputPhase::Reading }
    }

    /// One step. No more can have been read than the buffer holds.
    pub fn step(self, event: OutputEvent) -> (next: (Output, OutputAction))
        requires
            event@ matches OutputEventModel::Read(buffer, read) ==> read <= buffer.len(),
        ensures
            (next.0@, next.1@) == output_step(self@, event@),
    {
        match (self.phase, event) {
            (OutputPhase::Reading, OutputEvent::Read(buffer, read)) => {
                let mut bytes = buffer;
                bytes.truncate(read);
                assert(bytes@ =~= buffer@.take(read as int));
                (Output { phase: OutputPhase::Sending }, OutputAction::Send(bytes))
            },
            (OutputPhase::Sending, OutputEvent::Sent(true)) => (
                Output { phase: OutputPhase::Reading },
                OutputAction::Read,
            ),
            _ => (Output { phase: OutputPhase::Stopped }, OutputAction::Stop),
        }
    }
}

/// What the output side does in answer to a run of events.
pub open spec fn output_actions(phase: OutputPhase, events: Seq<OutputEventModel>) -> Seq<
    OutputActionModel,
>
    decreases events.len(),
{
    if events.len() == 0 {
        seq![]
    } else {
        let (next, action) = output_step(phase, events[0]);
        seq![action] + output_actions(next, events.drop_first())
    }
}

/// What happens to the output side when outputs are read and all of them are sent,
/// each in the first bytes of a buffer with something behind it.
pub open spec fn shown_events(outputs: Seq<(Seq<u8>, Seq<u8>)>) -> Seq<OutputEventModel>
    decreases outputs.len(),
{
    if outputs.len() == 0 {
        seq![]
    } else {
        seq![
            OutputEventModel::Read(outputs[0].0 + outputs[0].1, outputs[0].0.len()),
            OutputEventModel::Sent(true),
        ] + shown_events(outputs.drop_first())
    }
}

/// What showing some outputs one after the other takes.
pub open spec fn shown_actions(outputs: Seq<(Seq<u8>, Seq<u8>)>) -> Seq<OutputActionModel>
    decreases outputs.len(),
{
    if outputs.len() == 0 {
        seq![]
    } else {
        seq![OutputActionModel::Send(outputs[0].0), OutputActionModel::Read] + shown_actions(
            outputs.drop_first(),
        )
    }
}

/// A client whose socket takes it is sent each output of the terminal as it is, in
/// order, and nothing of what lay behind it in the buffer.
pub proof fn law_client_sees_what_is_printed(outputs: Seq<(Seq<u8>, Seq<u8>)>)
    ensures
        output_actions(OutputPhase::Reading, shown_events(outputs)) == shown_actions(outputs),
    decreases outputs.len(),
{
    if outputs.len() > 0 {
        let rest = outputs.drop_first();
        law_client_sees_what_is_printed(rest);
        let events = shown_events(outputs);
        assert(events.drop_first().drop_first() =~= shown_events(rest));
        assert((outputs[0].0 + outputs[0].1).take(outputs[0].0.len() as int) =~= outputs[0].0);
        reveal_with_fuel(output_actions, 3);
        assert(output_actions(OutputPhase::Reading, events) =~= shown_actions(outputs));
    }
}

/// The size of a client's screen, in characters.
#[derive(Debug, Clone, Copy, PartialEq, Eq, Structural)]
pub struct TTYSize {
    pub cols: u16,
    pub rows: u16,
}

/// What the side that takes the client's input waits for.
#[derive(Debug, Clone, Copy, PartialEq, Eq, Structural)]
pub enum InputPhase {
    /// The next frame.
    Reading,
    /// The size that a text gives.
    Sizing,
    /// The terminal, whose size is being set.
    Resizing,
    /// The terminal, which was handed input.
    Writing,
    /// The terminal, which was told to end.
    Closing,
    /// Nothing any more.
    Stopped,
}

/// What happens to the side that takes the client's input.
#[derive(Debug, PartialEq, Eq)]
pub enum InputEvent {
    /// A frame came in; nothing, if the socket ended or failed.
    Incoming(Option<Message>),
    /// A text was parsed as a size; nothing, if it is none.
    Sized(Option<TTYSize>),
    /// The terminal's size was set, or could not be.
    Resized(bool),
    /// The terminal took input, or did not.
    Written(bool),
}

/// The model of an [`InputEvent`].
pub enum InputEventModel {
    Incoming(Option<MessageModel>),
    Sized(Option<TTYSize>),
    Resized(bool),
    Written(bool),
}

impl View for InputEvent {
    type V = InputEventModel;

    open spec fn view(&self) -> InputEventModel {
        match self {
            InputEvent::Incoming(message) => InputEventModel::Incoming(message_of(*message)),
            InputEvent::Sized(size) => InputEventModel::Sized(*size),
            InputEvent::Resized(done) => InputEventModel::Resized(*done),
            InputEvent::Written(taken) => InputEventModel::Written(*taken),
        }
    }
}

/// What the side that takes the client's input wants done next.
#[derive(Debug, PartialEq, Eq)]
pub enum InputAction {
    /// Wait for a frame.
    Read,
    /// Parse a text as a size.
    ParseSize(String),
    /// Set the terminal's size.
    Resize(TTYSize),
    /// Hand input to the terminal.
    Write(Vec<u8>),
    /// Stop taking input.
    Stop,
}

/// The model of an [`InputAction`].
pub enum InputActionModel {
    Read,
    ParseSize(Seq<char>),
    Resize(TTYSize),
    Write(Seq<u8>),
    Stop,
}

impl View for InputAction {
    type V = InputActionModel;

    open spec fn view(&self) -> InputActionModel {
        match self {
            InputAction::Read => InputActionModel::Read,
            InputAction::ParseSize(text) => InputActionModel::ParseSize(text@),
            InputAction::Resize(size) => InputActionModel::Resize(*size),
            InputAction::Write(bytes) => InputActionModel::Write(bytes@),
            InputAction::Stop => InputActionModel::Stop,
        }
    }
}

/// One step of the side that takes the client's input. A text that starts as a size
/// is one, good or bad; every other text, and every binary frame, is input to the
/// terminal, byte for byte. A terminal that takes no input ends it. When the socket
/// ends, the shell is told to exit. An event that is not waited for ends it too.
pub open spec fn input_step(phase: InputPhase, event: InputEventModel) -> (
    InputPhase,
    InputActionModel,
) {
    match (phase, event) {
        (InputPhase::Reading, InputEventModel::Incoming(Some(MessageModel::Text(text)))) => {
            match after_prefix(text, SIZE_PREFIX@) {
                Some(size) => (InputPhase::Sizing, InputActionModel::ParseSize(size)),
                None => (InputPhase::Writing, InputActionModel::Write(encode_utf8(text))),
            }
        },
        (InputPhase::Reading, InputEventModel::Incoming(Some(MessageModel::Binary(bytes)))) => (
            InputPhase::Writing,
            InputActionModel::Write(bytes),
        ),
        (InputPhase::Reading, InputEventModel::Incoming(Some(_))) => (
            InputPhase::Reading,
            InputActionModel::Read,
        ),
        (InputPhase::Reading, InputEventModel::Incoming(None)) => (
            InputPhase::Closing,
            InputActionModel::Write(encode_utf8(EXIT_LINE@)),
        ),
        (InputPhase::Sizing, InputEventModel::Sized(Some(size))) => (
            InputPhase::Resizing,
            InputActionModel::Resize(size),
        ),
        (InputPhase::Sizing, InputEventModel::Sized(None)) => (
            InputPhase::Reading,
            InputActionModel::Read,
        ),
        (InputPhase::Resizing, InputEventModel::Resized(_)) => (
            InputPhase::Reading,
            InputActionModel::Read,
        ),
        (InputPhase::Writing, InputEventModel::Written(true)) => (
            InputPhase::Reading,
            InputActionModel::Read,
        ),
        _ => (InputPhase::Stopped, InputActionModel::Stop),
    }
}

/// The side of a terminal socket that takes the client's input.
#[derive(Debug, PartialEq, Eq)]
pub struct Input {
    phase: InputPhase,
}

impl View for Input {
    type V = InputPhase;

    closed spec fn view(&self) -> InputPhase {
        self.phase
    }
}

impl Input {
    /// The side that takes the input of a new socket.
    pub fn new() -> (input: Input)
        ensures
            input@ == InputPhase::Reading,
    {
        Input { phase: InputPhase::Reading }
    }

    /// One step.
    pub fn step(self, event: InputEvent) -> (next: (Input, InputAction))
        ensures
            (next.0@, next.1@) == input_step(self@, event@),
    {
        match (self.phase, event) {
            (InputPhase::Reading, InputEvent::Incoming(Some(message))) => match message {
                Message::Text(text) => match strip_prefix(text.as_str(), SIZE_PREFIX) {
                    Some(size) => (
                        Input { phase: InputPhase::Sizing },
                        InputAction::ParseSize(size.to_owned()),
                    ),
                    None => (
                        Input { phase: InputPhase::Writing },
                        InputAction::Write(text.as_str().as_bytes_vec()),
                    ),
                },
                Message::Binary(bytes) => (
                    Input { phase: InputPhase::Writing },
                    InputAction::Write(bytes),
                ),
                _ => (Input { phase: InputPhase::Reading }, InputAction::Read),
            },
            (InputPhase::Reading, InputEvent::Incoming(None)) => (
                Input { phase: InputPhase::Closing },
                InputAction::Write(EXIT_LINE.as_bytes_vec()),
            ),
            (InputPhase::Sizing, InputEvent::Sized(Some(size))) => (
                Input { phase: InputPhase::Resizing },
                InputAction::Resize(size),
            ),
            (InputPhase::Sizing, InputEvent::Sized(None)) => (
                Input { phase: InputPhase::Reading },
                InputAction::Read,
            ),
            (InputPhase::Resizing, InputEvent::Resized(_)) => (
                Input { phase: InputPhase::Reading },
                InputAction::Read,
            ),
            (InputPhase::Writing, InputEvent::Written(true)) => (
                Input { phase: InputPhase::Reading },
                InputAction::Read,
            ),
            _ => (Input { phase: InputPhase::Stopped }, InputAction::Stop),
        }
    }
}

/// What the input side does in answer to a run of events.
pub open spec fn input_actions(phase: InputPhase, events: Seq<InputEventModel>) -> Seq<
    InputActionModel,
>
    decreases events.len(),
{
    if events.len() == 0 {
        seq![]
    } else {
        let (next, action) = input_step(phase, events[0]);
        seq![action] + input_actions(next, events.drop_first())
    }
}

/// Each event is answered with one action.
proof fn lemma_one_action_per_event(phase: InputPhase, events: Seq<InputEventModel>)
    ensures
        input_actions(phase, events).len() == events.len(),
    decreases events.len(),
{
    if events.len() > 0 {
        lemma_one_action_per_event(input_step(phase, events[0]).0, events.drop_first());
    }
}

/// When the socket ends, the shell is told to exit, once; whatever comes of it, the
/// input side then stops for good.
pub proof fn law_end_of_socket_ends_the_shell(later: Seq<InputEventModel>, k: int)
    requires
        0 < k <= later.len(),
    ensures
        input_actions(
            InputPhase::Reading,
            seq![InputEventModel::Incoming(None)] + later,
        )[0] == InputActionModel::Write(encode_utf8(EXIT_LINE@)),
        input_actions(InputPhase::Reading, seq![InputEventModel::Incoming(None)] + later)[k]
            is Stop,
{
    let events = seq![InputEventModel::Incoming(None)] + later;
    assert(events.drop_first() =~= later);
    lemma_one_action_per_event(InputPhase::Reading, events);
    lemma_closed_input_stops(InputPhase::Closing, later, k - 1);
}

proof fn lemma_closed_input_stops(phase: InputPhase, events: Seq<InputEventModel>, k: int)
    requires
        phase is Closing || phase is Stopped,
        0 <= k < events.len(),
    ensures
        input_actions(phase, events)[k] is Stop,
    decreases events.len(),
{
    lemma_one_action_per_event(phase, events);
    if k > 0 {
        lemma_closed_input_stops(InputPhase::Stopped, events.drop_first(), k - 1);
    }
}

/// What a frame has the terminal handed, if anything.
pub open spec fn typed(message: MessageModel) -> Option<Seq<u8>> {
    match message {
        MessageModel::Text(text) => if SIZE_PREFIX@.is_prefix_of(text) {
            None
        } else {
            Some(encode_utf8(text))
        },
        MessageModel::Binary(bytes) => Some(bytes),
        _ => None,
    }
}

/// The bytes that some frames have the terminal handed, in order.
pub open spec fn all_typed(messages: Seq<MessageModel>) -> Seq<u8>
    decreases messages.len(),
{
    if messages.len() == 0 {
        seq![]
    } else {
        let rest = all_typed(messages.drop_first());
        match typed(messages[0]) {
            Some(bytes) => bytes + rest,
            None => rest,
        }
    }
}

/// What happens to the input side when a frame comes in and all goes well with it:
/// the terminal takes the input, or a size is parsed as `size` says and set.
pub open spec fn frame_events(message: MessageModel, size: Option<TTYSize>) -> Seq<
    InputEventModel,
> {
    let incoming = InputEventModel::Incoming(Some(message));
    if typed(message) is Some {
        seq![incoming, InputEventModel::Written(true)]
    } else if message is Text {
        match size {
            Some(_) => seq![incoming, InputEventModel::Sized(size), InputEventModel::Resized(true)],
            None => seq![incoming, InputEventModel::Sized(None)],
        }
    } else {
        seq![incoming]
    }
}

/// What happens to the input side when frames come in one after the other.
pub open spec fn session_events(frames: Seq<(MessageModel, Option<TTYSize>)>) -> Seq<
    InputEventModel,
>
    decreases frames.len(),
{
    if frames.len() == 0 {
        seq![]
    } else {
        frame_events(frames[0].0, frames[0].1) + session_events(frames.drop_first())
    }
}

/// The bytes that some actions hand to the terminal, in order.
pub open spec fn all_written(actions: Seq<InputActionModel>) -> Seq<u8>
    decreases actions.len(),
{
    if actions.len() == 0 {
        seq![]
    } else {
        let rest = all_written(actions.drop_first());
        match actions[0] {
            InputActionModel::Write(bytes) => bytes + rest,
            _ => rest,
        }
    }
}

/// A terminal that takes its input is handed exactly the bytes of the client's
/// frames, in order, without those that give a size.
pub proof fn law_terminal_gets_what_is_typed(frames: Seq<(MessageModel, Option<TTYSize>)>)
    ensures
        all_written(input_actions(InputPhase::Reading, session_events(frames))) == all_typed(
            frames.map_values(|frame: (MessageModel, Option<TTYSize>)| frame.0),
        ),
    decreases frames.len(),
{
    let messages = frames.map_values(|frame: (MessageModel, Option<TTYSize>)| frame.0);
    if frames.len() > 0 {
        let rest = frames.drop_first();
        law_terminal_gets_what_is_typed(rest);
        assert(messages.drop_first() =~= rest.map_values(
            |frame: (MessageModel, Option<TTYSize>)| frame.0,
        ));
        let later = session_events(rest);
        let now = frame_events(frames[0].0, frames[0].1);
        let events = session_events(frames);
        reveal_with_fuel(input_actions, 4);
        reveal_with_fuel(all_written, 4);
        if now.len() == 1 {
            assert(events.drop_first() =~= later);
        } else if now.len() == 2 {
            assert(events.drop_first().drop_first() =~= later);
        } else {
            assert(events.drop_first().drop_first().drop_first() =~= later);
        }
        let done = input_actions(InputPhase::Reading, later);
        let actions = input_actions(InputPhase::Reading, events);
        if now.len() == 1 {
            assert(actions.drop_first() =~= done);
        } else if now.len() == 2 {
            assert(actions.drop_first().drop_first() =~= done);
        } else {
            assert(actions.drop_first().drop_first().drop_first() =~= done);
        }
        assert(all_written(actions) =~= all_typed(messages));
    }
}

/// What is run is `login`, told that it runs in an xterm. It is called with the user's
/// name, whatever that is, for whom no password is asked; but with nothing at all where
/// the client is to say who it is.
pub proof fn law_login_is_for_the_configured_user(command: LoginCommand, user: Seq<char>)
    ensures
        logs_in(command, user) <==> {
            &&& command.program@ == "/bin/login"@
            &&& command.term@ == "xterm"@
            &&& if user == "manual"@ {
                command.args@.len() == 0
            } else {
                &&& command.args@.len() == 2
                &&& command.args@[0]@ == "-f"@
                &&& command.args@[1]@ == user
            }
        },
{
    let args = texts_of(command.args@);
    assert(args.len() == command.args@.len());
    if user == "manual"@ {
        if args.len() == 0 {
            assert(args =~= login_args(user));
        }
    } else if args.len() == 2 && args[0] == "-f"@ && args[1] == user {
        assert(args =~= login_args(user));
    }
}

/// What is read from the terminal, however much, is sent as it is; the terminal is read
/// again if and only if the socket takes it; and a terminal that cannot be read ends it.
pub proof fn law_output_goes_on_as_long_as_both_sides_do(
    output: Seq<u8>,
    behind: Seq<u8>,
    taken: bool,
)
    ensures
        ({
            let read = OutputEventModel::Read(output + behind, output.len());
            let (sending, action) = output_step(OutputPhase::Reading, read);
            let (next, then) = output_step(sending, OutputEventModel::Sent(taken));
            &&& action == OutputActionModel::Send(output)
            &&& taken ==> next is Reading && then is Read
            &&& !taken ==> next is Stopped && then is Stop
            &&& output_step(OutputPhase::Reading, OutputEventModel::Failed).1 is Stop
        }),
{
    assert((output + behind).take(output.len() as int) =~= output);
}

/// An output side that has stopped asks for nothing any more.
pub proof fn law_stopped_output_stays_stopped(event: OutputEventModel)
    ensures
        output_step(OutputPhase::Stopped, event) == (OutputPhase::Stopped, OutputActionModel::Stop),
{
}

/// What a frame is answered with while it is dealt with, up to the next frame. A size is
/// parsed, and set if it is one, and the next frame is read whatever comes of that. All
/// else that holds something is written to the terminal as it is, and the next frame is
/// read if and only if the terminal takes it. Frames that hold nothing are passed over.
pub proof fn law_each_frame_is_dealt_with(
    text: Seq<char>,
    bytes: Seq<u8>,
    size: TTYSize,
    done: bool,
)
    ensures
        ({
            let incoming = |message: MessageModel| InputEventModel::Incoming(Some(message));
            let actions = |events: Seq<InputEventModel>| input_actions(InputPhase::Reading, events);
            let sized = incoming(MessageModel::Text("size"@ + text));
            let written = InputEventModel::Written(done);
            let after = if done {
                InputActionModel::Read
            } else {
                InputActionModel::Stop
            };
            &&& actions(
                seq![sized, InputEventModel::Sized(Some(size)), InputEventModel::Resized(done)],
            ) =~= seq![
                InputActionModel::ParseSize(text),
                InputActionModel::Resize(size),
                InputActionModel::Read,
            ]
            &&& actions(seq![sized, InputEventModel::Sized(None)]) =~= seq![
                InputActionModel::ParseSize(text),
                InputActionModel::Read,
            ]
            &&& !"size"@.is_prefix_of(text) ==> actions(
                seq![incoming(MessageModel::Text(text)), written],
            ) =~= seq![InputActionModel::Write(encode_utf8(text)), after]
            &&& actions(seq![incoming(MessageModel::Binary(bytes)), written]) =~= seq![
                InputActionModel::Write(bytes),
                after,
            ]
            &&& actions(seq![incoming(MessageModel::Close)]) =~= seq![InputActionModel::Read]
            &&& actions(seq![incoming(MessageModel::Other)]) =~= seq![InputActionModel::Read]
        }),
{
    reveal_with_fuel(input_actions, 4);
    let whole = "size"@ + text;
    assert("size"@.is_prefix_of(whole)) by {
        assert(whole.take("size"@.len() as int) =~= "size"@);
    }
    assert(whole.skip("size"@.len() as int) =~= text);
    let sized = InputEventModel::Incoming(Some(MessageModel::Text(whole)));
    let with = seq![sized, InputEventModel::Sized(Some(size)), InputEventModel::Resized(done)];
    assert(with.drop_first() =~= seq![
        InputEventModel::Sized(Some(size)),
        InputEventModel::Resized(done),
    ]);
    assert(with.drop_first().drop_first() =~= seq![InputEventModel::Resized(done)]);
    assert(with.drop_first().drop_first().drop_first() =~= Seq::empty());
    let without = seq![sized, InputEventModel::Sized(None)];
    assert(without.drop_first() =~= seq![InputEventModel::Sized(None)]);
    assert(without.drop_first().drop_first() =~= Seq::empty());
    let typed_text = seq![
        InputEventModel::Incoming(Some(MessageModel::Text(text))),
        InputEventModel::Written(done),
    ];
    assert(typed_text.drop_first() =~= seq![InputEventModel::Written(done)]);
    assert(typed_text.drop_first().drop_first() =~= Seq::empty());
    let typed_bytes = seq![
        InputEventModel::Incoming(Some(MessageModel::Binary(bytes))),
        InputEventModel::Written(done),
    ];
    assert(typed_bytes.drop_first() =~= seq![InputEventModel::Written(done)]);
    assert(typed_bytes.drop_first().drop_first() =~= Seq::empty());
}

/// What the input side waits for after a run of events.
pub open spec fn input_after(phase: InputPhase, events: Seq<InputEventModel>) -> InputPhase
    decreases events.len(),
{
    if events.len() == 0 {
        phase
    } else {
        input_after(input_step(phase, events[0]).0, events.drop_first())
    }
}

/// As long as the terminal takes its input, the input side never stops while frames come
/// in, and then waits for the next one.
pub proof fn law_input_goes_on_as_long_as_frames_come(
    frames: Seq<(MessageModel, Option<TTYSize>)>,
)
    ensures
        input_after(InputPhase::Reading, session_events(frames)) is Reading,
        forall|k: int|
            0 <= k < session_events(frames).len() ==> !(#[trigger] input_actions(
                InputPhase::Reading,
                session_events(frames),
            )[k] is Stop),
    decreases frames.len(),
{
    let events = session_events(frames);
    lemma_one_action_per_event(InputPhase::Reading, events);
    if frames.len() > 0 {
        let rest = frames.drop_first();
        law_input_goes_on_as_long_as_frames_come(rest);
        let later = session_events(rest);
        let now = frame_events(frames[0].0, frames[0].1);
        reveal_with_fuel(input_actions, 4);
        reveal_with_fuel(input_after, 4);
        let done = input_actions(InputPhase::Reading, later);
        let actions = input_actions(InputPhase::Reading, events);
        lemma_one_action_per_event(InputPhase::Reading, later);
        if now.len() == 1 {
            assert(events.drop_first() =~= later);
        } else if now.len() == 2 {
            assert(events.drop_first().drop_first() =~= later);
        } else {
            assert(events.drop_first().drop_first().drop_first() =~= later);
        }
        assert(actions.skip(now.len() as int) =~= done);
        assert forall|k: int| 0 <= k < events.len() implies !(#[trigger] actions[k] is Stop) by {
            if k >= now.len() {
                assert(actions[k] == done[k - now.len()]);
            }
        }
    }
}

/// When the socket ends, what is written to the terminal is a line that says `exit`.
pub proof fn law_shell_is_told_to_exit()
    ensures
        input_step(InputPhase::Reading, InputEventModel::Incoming(None)).1
            == InputActionModel::Write(encode_utf8("exit\n"@)),
{
}

/// Events and actions are modelled by their kinds and all that they hold.
pub proof fn law_terminal_is_modelled_whole(
    message: Option<Message>,
    size: TTYSize,
    flag: bool,
    text: String,
    bytes: Vec<u8>,
    read: usize,
)
    ensures
        InputEvent::Incoming(message)@ == InputEventModel::Incoming(message_of(message)),
        InputEvent::Sized(Some(size))@ == InputEventModel::Sized(Some(size)),
        InputEvent::Sized(None)@ == InputEventModel::Sized(None),
        InputEvent::Resized(flag)@ == InputEventModel::Resized(flag),
        InputEvent::Written(flag)@ == InputEventModel::Written(flag),
        InputAction::Read@ == InputActionModel::Read,
        InputAction::ParseSize(text)@ == InputActionModel::ParseSize(text@),
        InputAction::Resize(size)@ == InputActionModel::Resize(size),
        InputAction::Write(bytes)@ == InputActionModel::Write(bytes@),
        InputAction::Stop@ == InputActionModel::Stop,
        OutputEvent::Read(bytes, read)@ == OutputEventModel::Read(bytes@, read as nat),
        OutputEvent::Failed@ == OutputEventModel::Failed,
        OutputEvent::Sent(flag)@ == OutputEventModel::Sent(flag),
        OutputAction::Read@ == OutputActionModel::Read,
        OutputAction::Send(bytes)@ == OutputActionModel::Send(bytes@),
        OutputAction::Stop@ == OutputActionModel::Stop,
{
}

/// An input side that has stopped asks for nothing any more.
pub proof fn law_stopped_input_stays_stopped(event: InputEventModel)
    ensures
        input_step(InputPhase::Stopped, event) == (InputPhase::Stopped, InputActionModel::Stop),
{
}

} // verus!
