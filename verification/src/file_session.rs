//! The file socket: requests about files, and the frames that they take.

use vstd::prelude::*;

use crate::config::Config;
use crate::file::{get_file_req, FileError, FileHandlerHelperReturns, FileRequest, FileSize, CHUNK_SIZE};
use crate::message::Message;
use crate::token::{admits, validate_token, TokenState};
#[allow(unused_imports)]
use crate::file::{
    chunk, chunk_count, chunks_from, command_of, concatenated, file_request_of,
    law_chunks_are_full_but_for_the_last, law_chunks_make_up_the_download,
    law_work_is_told_by_the_command, reply_model, reply_of, request_text, FileOutcomeModel,
    FileRequestModel, ReplyModel,
};
#[allow(unused_imports)]
use crate::text::number_in;
#[allow(unused_imports)]
use crate::message::{message_of, MessageModel};
#[allow(unused_imports)]
use crate::token::{
    admitted, law_login_needs_a_signed_token, possible_state, state_at, text_of, vouches,
};

verus! {

/// What a file socket waits for.
#[derive(Debug, PartialEq, Eq)]
pub enum FilePhase {
    /// The next frame.
    Reading,
    /// The request that a text frame holds; `true`, if it is to take the place of one
    /// that is being worked on.
    Parsing(bool),
    /// The work on a request, or a frame that comes in meanwhile.
    Working(FileRequest),
    /// The socket, which was handed the text of a file.
    SendingText,
    /// The socket, which was handed the size of a download, on this request.
    SendingSize(FileRequest, Vec<u8>),
    /// The socket, which was handed the bytes of a download before this place.
    SendingBytes(Vec<u8>, usize),
    /// The socket, which is being flushed.
    Flushing,
    /// The next frame of an upload.
    Receiving,
    /// The file, which was handed a frame of an upload.
    Storing,
    /// Nothing any more.
    Stopped,
}

/// The model of a [`FilePhase`].
pub enum FilePhaseModel {
    Reading,
    Parsing(bool),
    Working(FileRequestModel),
    SendingText,
    SendingSize(FileRequestModel, Seq<u8>),
    /// A download and the number of its chunks that were handed over.
    SendingBytes(Seq<u8>, nat),
    Flushing,
    Receiving,
    Storing,
    Stopped,
}

/// The number of chunks before a place in a download.
pub open spec fn chunks_before(len: nat, place: nat) -> nat {
    if place < len {
        place / CHUNK_SIZE as nat
    } else {
        chunk_count(len)
    }
}

impl View for FilePhase {
    type V = FilePhaseModel;

    open spec fn view(&self) -> FilePhaseModel {
        match self {
            FilePhase::Reading => FilePhaseModel::Reading,
            FilePhase::Parsing(instead) => FilePhaseModel::Parsing(*instead),
            FilePhase::Working(request) => FilePhaseModel::Working(request@),
            FilePhase::SendingText => FilePhaseModel::SendingText,
            FilePhase::SendingSize(request, bytes) => FilePhaseModel::SendingSize(request@, bytes@),
            FilePhase::SendingBytes(bytes, place) => FilePhaseModel::SendingBytes(
                bytes@,
                chunks_before(bytes@.len(), *place as nat),
            ),
            FilePhase::Flushing => FilePhaseModel::Flushing,
            FilePhase::Receiving => FilePhaseModel::Receiving,
            FilePhase::Storing => FilePhaseModel::Storing,
            FilePhase::Stopped => FilePhaseModel::Stopped,
        }
    }
}

/// What happens to a file socket.
#[derive(Debug, PartialEq, Eq)]
pub enum FileEvent {
    /// A frame came in; nothing, if the socket ended or failed.
    Incoming(Option<Message>),
    /// A text was parsed; nothing, if it is not a file request.
    Parsed(Option<FileRequest>),
    /// The work on a request is done.
    Answered(Result<Option<FileHandlerHelperReturns>, FileError>),
    /// The size of a download could not be put into a message.
    Unencodable,
    /// The socket took a message or was flushed, or not.
    Sent(bool),
    /// The file took a frame of an upload, or did not.
    Stored(bool),
}

/// The model of a [`FileEvent`].
pub enum FileEventModel {
    Incoming(Option<MessageModel>),
    Parsed(Option<FileRequestModel>),
    Answered(Result<Option<ReplyModel>, FileError>),
    Unencodable,
    Sent(bool),
    Stored(bool),
}

impl View for FileEvent {
    type V = FileEventModel;

    open spec fn view(&self) -> FileEventModel {
        match self {
            FileEvent::Incoming(message) => FileEventModel::Incoming(message_of(*message)),
            FileEvent::Parsed(request) => FileEventModel::Parsed(file_request_of(*request)),
            FileEvent::Answered(reply) => FileEventModel::Answered(reply_model(*reply)),
            FileEvent::Unencodable => FileEventModel::Unencodable,
            FileEvent::Sent(taken) => FileEventModel::Sent(*taken),
            FileEvent::Stored(taken) => FileEventModel::Stored(*taken),
        }
    }
}

/// What a file socket wants done next.
#[derive(Debug, PartialEq, Eq)]
pub enum FileAction {
    /// Wait for a frame.
    Read,
    /// Parse a text as a file request.
    Parse(String),
    /// Work on a request, from its beginning, and watch for frames meanwhile.
    Work(FileRequest),
    /// Send a text.
    SendText(String),
    /// Send the size of a download.
    SendSize(FileSize),
    /// Send some bytes of a download.
    SendBytes(Vec<u8>),
    /// Flush the socket.
    Flush,
    /// Wait for a frame of an upload.
    Receive,
    /// Put a frame of an upload into the file.
    Store(Vec<u8>),
    /// Give up the socket.
    Stop,
}

/// The model of a [`FileAction`].
pub enum FileActionModel {
    Read,
    Parse(Seq<char>),
    Work(FileRequestModel),
    SendText(Seq<char>),
    SendSize(FileSize),
    SendBytes(Seq<u8>),
    Flush,
    Receive,
    Store(Seq<u8>),
    Stop,
}

impl View for FileAction {
    type V = FileActionModel;

    open spec fn view(&self) -> FileActionModel {
        match self {
            FileAction::Read => FileActionModel::Read,
            FileAction::Parse(text) => FileActionModel::Parse(text@),
            FileAction::Work(request) => FileActionModel::Work(request@),
            FileAction::SendText(text) => FileActionModel::SendText(text@),
            FileAction::SendSize(size) => FileActionModel::SendSize(*size),
            FileAction::SendBytes(bytes) => FileActionModel::SendBytes(bytes@),
            FileAction::Flush => FileActionModel::Flush,
            FileAction::Receive => FileActionModel::Receive,
            FileAction::Store(bytes) => FileActionModel::Store(bytes@),
            FileAction::Stop => FileActionModel::Stop,
        }
    }
}

/// What a file socket is in, and what it wants done.
pub type FileNext = (FilePhaseModel, FileActionModel);

/// Back to waiting for a frame.
pub open spec fn reading() -> FileNext {
    (FilePhaseModel::Reading, FileActionModel::Read)
}

/// The end.
pub open spec fn stopped() -> FileNext {
    (FilePhaseModel::Stopped, FileActionModel::Stop)
}

/// A look at a frame: its text is parsed; a frame without one holds no request.
pub open spec fn parsing(message: MessageModel, instead: bool) -> FileNext {
    match request_text(message) {
        Some(text) => (FilePhaseModel::Parsing(instead), FileActionModel::Parse(text)),
        None => reading(),
    }
}

/// The work on a request, from its beginning.
pub open spec fn working(request: FileRequestModel) -> FileNext {
    (FilePhaseModel::Working(request), FileActionModel::Work(request))
}

/// A download after `k` of its chunks were handed over: the next one, or a flush at
/// the end.
pub open spec fn sending(bytes: Seq<u8>, k: nat) -> FileNext {
    if k < chunk_count(bytes.len()) {
        (
            FilePhaseModel::SendingBytes(bytes, k + 1),
            FileActionModel::SendBytes(chunk(bytes, k)),
        )
    } else {
        (FilePhaseModel::Flushing, FileActionModel::Flush)
    }
}

/// One step of a file socket. `state` is what the client's token says at that time;
/// only a request that starts work depends on it. A frame that comes in while a
/// request is worked on replaces the request, unless it holds none: then the work is
/// dropped. Work that fails is done again. An upload takes binary frames until
/// another one comes. An event that is not waited for ends the socket.
pub open spec fn file_step(
    phase: FilePhaseModel,
    pass: bool,
    event: FileEventModel,
    state: TokenState,
) -> FileNext {
    match (phase, event) {
        (FilePhaseModel::Reading, FileEventModel::Incoming(Some(message))) => {
            if message is Close {
                stopped()
            } else {
                parsing(message, false)
            }
        },
        (FilePhaseModel::Parsing(_), FileEventModel::Parsed(None)) => reading(),
        (FilePhaseModel::Parsing(instead), FileEventModel::Parsed(Some(request))) => {
            if instead || admitted(pass, state) {
                working(request)
            } else {
                stopped()
            }
        },
        (FilePhaseModel::Working(request), FileEventModel::Answered(reply)) => match reply {
            Err(_) => working(request),
            Ok(None) => reading(),
            Ok(Some(ReplyModel::String(text))) => (
                FilePhaseModel::SendingText,
                FileActionModel::SendText(text),
            ),
            Ok(Some(ReplyModel::SizeBuf(size, bytes))) => (
                FilePhaseModel::SendingSize(request, bytes),
                FileActionModel::SendSize(size),
            ),
            Ok(Some(ReplyModel::StreamUpload(size))) => if size == 0 {
                reading()
            } else {
                (FilePhaseModel::Receiving, FileActionModel::Receive)
            },
        },
        (FilePhaseModel::Working(_), FileEventModel::Incoming(Some(message))) => parsing(
            message,
            true,
        ),
        (FilePhaseModel::SendingText, FileEventModel::Sent(true)) => reading(),
        (FilePhaseModel::SendingSize(request, _), FileEventModel::Unencodable) => working(request),
        (FilePhaseModel::SendingSize(_, bytes), FileEventModel::Sent(true)) => sending(bytes, 0),
        (FilePhaseModel::SendingBytes(bytes, k), FileEventModel::Sent(true)) => sending(bytes, k),
        (FilePhaseModel::Flushing, FileEventModel::Sent(true)) => reading(),
        (FilePhaseModel::Receiving, FileEventModel::Incoming(message)) => match message {
            Some(MessageModel::Binary(bytes)) => (
                FilePhaseModel::Storing,
                FileActionModel::Store(bytes),
            ),
            _ => reading(),
        },
        (FilePhaseModel::Storing, FileEventModel::Stored(true)) => (
            FilePhaseModel::Receiving,
            FileActionModel::Receive,
        ),
        (FilePhaseModel::Storing, FileEventModel::Stored(false)) => reading(),
        _ => stopped(),
    }
}

/// A client's file socket.
pub struct FileSession {
    phase: FilePhase,
}

impl View for FileSession {
    type V = FilePhaseModel;

    closed spec fn view(&self) -> FilePhaseModel {
        self.phase@
    }
}

/// Whether a place in a download is the start of a chunk, or its end.
spec fn on_chunk(len: nat, place: nat) -> bool {
    &&& place <= len
    &&& place < len ==> place % CHUNK_SIZE as nat == 0
}

impl FileSession {
    #[verifier::type_invariant]
    spec fn on_chunks(self) -> bool {
        self.phase matches FilePhase::SendingBytes(bytes, place) ==> on_chunk(
            bytes@.len(),
            place as nat,
        )
    }

    /// A new file socket.
    pub fn new() -> (session: FileSession)
        ensures
            session@ == FilePhaseModel::Reading,
    {
        FileSession { phase: FilePhase::Reading }
    }

    /// Goes on with a download from a place on.
    fn send_from(bytes: Vec<u8>, place: usize) -> (next: (FileSession, FileAction))
        requires
            on_chunk(bytes@.len(), place as nat),
        ensures
            (next.0@, next.1@) == sending(bytes@, chunks_before(bytes@.len(), place as nat)),
    {
        let len: usize = bytes.len();
        if place < len {
            let end: usize = if len - place > CHUNK_SIZE {
                place + CHUNK_SIZE
            } else {
                len
            };
            let part: Vec<u8> = vstd::slice::slice_to_vec(
                vstd::slice::slice_subrange(bytes.as_slice(), place, end),
            );
            let ghost k = chunks_before(len as nat, place as nat);
            assert(k * CHUNK_SIZE == place);
            assert(part@ =~= chunk(bytes@, k));
            assert(chunks_before(len as nat, end as nat) == k + 1);
            (
                FileSession { phase: FilePhase::SendingBytes(bytes, end) },
                FileAction::SendBytes(part),
            )
        } else {
            (FileSession { phase: FilePhase::Flushing }, FileAction::Flush)
        }
    }

    /// Starts the work on a request.
    fn work_on(request: FileRequest) -> (next: (FileSession, FileAction))
        ensures
            (next.0@, next.1@) == working(request@),
    {
        let copy = request.clone();
        (FileSession { phase: FilePhase::Working(request) }, FileAction::Work(copy))
    }

    /// Looks at a frame.
    fn parse(message: Message, instead: bool) -> (next: (FileSession, FileAction))
        ensures
            (next.0@, next.1@) == parsing(message@, instead),
    {
        match get_file_req(message) {
            Some(text) => (
                FileSession { phase: FilePhase::Parsing(instead) },
                FileAction::Parse(text),
            ),
            None => Self::read(),
        }
    }

    /// Waits for a frame.
    fn read() -> (next: (FileSession, FileAction))
        ensures
            (next.0@, next.1@) == reading(),
    {
        (FileSession { phase: FilePhase::Reading }, FileAction::Read)
    }

    /// Gives up the socket.
    fn stop() -> (next: (FileSession, FileAction))
        ensures
            (next.0@, next.1@) == stopped(),
    {
        (FileSession { phase: FilePhase::Stopped }, FileAction::Stop)
    }

    /// One step, given what the client's token says.
    pub fn step_with(self, pass: bool, event: FileEvent, state: TokenState) -> (next: (
        FileSession,
        FileAction,
    ))
        ensures
            (next.0@, next.1@) == file_step(self@, pass, event@, state),
    {
        proof {
            use_type_invariant(&self);
        }
        match (self.phase, event) {
            (FilePhase::Reading, FileEvent::Incoming(Some(message))) => {
                if matches!(&message, Message::Close) {
                    Self::stop()
                } else {
                    Self::parse(message, false)
                }
            },
            (FilePhase::Parsing(_), FileEvent::Parsed(None)) => Self::read(),
            (FilePhase::Parsing(instead), FileEvent::Parsed(Some(request))) => {
                if instead || admits(pass, state) {
                    Self::work_on(request)
                } else {
                    Self::stop()
                }
            },
            (FilePhase::Working(request), FileEvent::Answered(reply)) => match reply {
                Err(_) => Self::work_on(request),
                Ok(None) => Self::read(),
                Ok(Some(FileHandlerHelperReturns::String(text))) => (
                    FileSession { phase: FilePhase::SendingText },
                    FileAction::SendText(text),
                ),
                Ok(Some(FileHandlerHelperReturns::SizeBuf(size, bytes))) => (
                    FileSession { phase: FilePhase::SendingSize(request, bytes) },
                    FileAction::SendSize(size),
                ),
                Ok(Some(FileHandlerHelperReturns::StreamUpload(size))) => if size == 0 {
                    Self::read()
                } else {
                    (FileSession { phase: FilePhase::Receiving }, FileAction::Receive)
                },
            },
            (FilePhase::Working(_), FileEvent::Incoming(Some(message))) => Self::parse(
                message,
                true,
            ),
            (FilePhase::SendingText, FileEvent::Sent(true)) => Self::read(),
            (FilePhase::SendingSize(request, _), FileEvent::Unencodable) => Self::work_on(request),
            (FilePhase::SendingSize(_, bytes), FileEvent::Sent(true)) => Self::send_from(bytes, 0),
            (FilePhase::SendingBytes(bytes, place), FileEvent::Sent(true)) => Self::send_from(
                bytes,
                place,
            ),
            (FilePhase::Flushing, FileEvent::Sent(true)) => Self::read(),
            (FilePhase::Receiving, FileEvent::Incoming(message)) => match message {
                Some(Message::Binary(bytes)) => (
                    FileSession { phase: FilePhase::Storing },
                    FileAction::Store(bytes),
                ),
                _ => Self::read(),
            },
            (FilePhase::Storing, FileEvent::Stored(true)) => (
                FileSession { phase: FilePhase::Receiving },
                FileAction::Receive,
            ),
            (FilePhase::Storing, FileEvent::Stored(false)) => Self::read(),
            _ => Self::stop(),
        }
    }

    /// One step. Where clients have to log in, a request that starts work has the
    /// client's token looked at.
    pub fn step(
        self,
        config: &Config,
        token: &str,
        fingerprint: Option<&str>,
        event: FileEvent,
    ) -> (next: (FileSession, FileAction))
        ensures
            exists|state: TokenState|
                #[trigger] possible_state(
                    config.secret@,
                    token@,
                    text_of(fingerprint),
                    state,
                ) && (next.0@, next.1@) == file_step(self@, config.pass, event@, state),
    {
        let starts = matches!(&self.phase, FilePhase::Parsing(false)) && matches!(
            &event,
            FileEvent::Parsed(Some(_))
        );
        if config.pass && starts {
            let state = validate_token(token, fingerprint, config.secret.as_str());
            self.step_with(config.pass, event, state)
        } else {
            proof {
                let state = state_at(config.secret@, token@, text_of(fingerprint), 0);
                assert(possible_state(config.secret@, token@, text_of(fingerprint), state));
                assert(file_step(self@, config.pass, event@, state) == file_step(
                    self@,
                    config.pass,
                    event@,
                    TokenState::InvalidToken,
                ));
            }
            self.step_with(config.pass, event, TokenState::InvalidToken)
        }
    }
}

/// What happens to a file socket, with what the client's token says at that time.
pub type FileInput = (FileEventModel, TokenState);

/// What a file socket does in answer to a run of events.
pub open spec fn file_actions(phase: FilePhaseModel, pass: bool, inputs: Seq<FileInput>) -> Seq<
    FileActionModel,
>
    decreases inputs.len(),
{
    if inputs.len() == 0 {
        seq![]
    } else {
        let (next, action) = file_step(phase, pass, inputs[0].0, inputs[0].1);
        seq![action] + file_actions(next, pass, inputs.drop_first())
    }
}

/// Whether an action does no more than look at what the client sends.
pub open spec fn only_looks(action: FileActionModel) -> bool {
    action is Read || action is Parse || action is Stop
}

proof fn lemma_only_looks(phase: FilePhaseModel, inputs: Seq<FileInput>, k: int)
    requires
        phase is Reading || phase == FilePhaseModel::Parsing(false) || phase is Stopped,
        forall|i: int| 0 <= i < inputs.len() ==> !((#[trigger] inputs[i]).1 is ValidToken),
        0 <= k < inputs.len(),
    ensures
        file_actions(phase, true, inputs).len() == inputs.len(),
        only_looks(file_actions(phase, true, inputs)[k]),
    decreases inputs.len(),
{
    let (next, action) = file_step(phase, true, inputs[0].0, inputs[0].1);
    let rest = inputs.drop_first();
    assert(forall|i: int| 0 <= i < rest.len() ==> #[trigger] rest[i] == inputs[i + 1]);
    if rest.len() > 0 {
        lemma_only_looks(next, rest, if k > 0 {
            k - 1
        } else {
            0
        });
    } else {
        assert(file_actions(next, true, rest).len() == 0);
    }
}

/// Where clients have to log in, a client whose token is never found good, whether it is
/// expired, unsigned or of another client, has no file touched and is sent nothing.
pub proof fn law_without_a_login_no_file_is_touched(inputs: Seq<FileInput>, k: int)
    requires
        forall|i: int| 0 <= i < inputs.len() ==> !((#[trigger] inputs[i]).1 is ValidToken),
        0 <= k < inputs.len(),
    ensures
        only_looks(file_actions(FilePhaseModel::Reading, true, inputs)[k]),
{
    lemma_only_looks(FilePhaseModel::Reading, inputs, k);
}

/// Where clients have to log in, a client whose token is not signed for its own
/// fingerprint has no file touched and is sent nothing, whatever it asks for.
pub proof fn law_without_a_good_token_no_file_is_touched(
    secret: Seq<char>,
    token: Seq<char>,
    fingerprint: Option<Seq<char>>,
    inputs: Seq<FileInput>,
    k: int,
)
    requires
        !vouches(secret, token, fingerprint),
        forall|i: int|
            0 <= i < inputs.len() ==> possible_state(
                secret,
                token,
                fingerprint,
                (#[trigger] inputs[i]).1,
            ),
        0 <= k < inputs.len(),
    ensures
        only_looks(file_actions(FilePhaseModel::Reading, true, inputs)[k]),
{
    assert forall|i: int| 0 <= i < inputs.len() implies !((#[trigger] inputs[i]).1 is ValidToken) by {
        law_login_needs_a_signed_token(secret, token, fingerprint, inputs[i].1);
    }
    law_without_a_login_no_file_is_touched(inputs, k);
}

/// A first request of a client that is not logged in ends the socket.
pub proof fn law_refused_request_ends_the_socket(request: FileRequestModel, state: TokenState)
    requires
        !(state is ValidToken),
    ensures
        file_step(
            FilePhaseModel::Parsing(false),
            true,
            FileEventModel::Parsed(Some(request)),
            state,
        ) == stopped(),
{
}

/// A run of `n` messages that the socket takes.
pub open spec fn all_sent(n: nat, state: TokenState) -> Seq<FileInput> {
    Seq::new(n, |i: int| (FileEventModel::Sent(true), state))
}

proof fn lemma_download_goes_on(
    bytes: Seq<u8>,
    k: nat,
    pass: bool,
    state: TokenState,
)
    requires
        k <= chunk_count(bytes.len()),
    ensures
        file_actions(
            FilePhaseModel::SendingBytes(bytes, k),
            pass,
            all_sent((chunk_count(bytes.len()) - k + 2) as nat, state),
        ) == chunks_from(bytes, k).map_values(|part: Seq<u8>| FileActionModel::SendBytes(part))
            + seq![FileActionModel::Flush, FileActionModel::Read],
    decreases chunk_count(bytes.len()) - k,
{
    let count = chunk_count(bytes.len());
    let phase = FilePhaseModel::SendingBytes(bytes, k);
    let inputs = all_sent((count - k + 2) as nat, state);
    let rest = all_sent((count - k + 1) as nat, state);
    assert(inputs.drop_first() =~= rest);
    let parts = chunks_from(bytes, k);
    let actions = parts.map_values(|part: Seq<u8>| FileActionModel::SendBytes(part)) + seq![
        FileActionModel::Flush,
        FileActionModel::Read,
    ];
    if k < count {
        lemma_download_goes_on(bytes, k + 1, pass, state);
        assert(chunks_from(bytes, k + 1) =~= parts.drop_first());
        assert(file_actions(phase, pass, inputs) =~= actions);
    } else {
        reveal_with_fuel(file_actions, 3);
        assert(rest.drop_first() =~= all_sent(0, state));
        assert(file_actions(phase, pass, inputs) =~= actions);
    }
}

/// A download is sent whole, as long as the socket takes what it is handed: first
/// its size, which is the number of chunks, then the chunks in order, then a flush;
/// then the next frame is read.
pub proof fn law_download_is_sent_whole(
    request: FileRequestModel,
    bytes: Seq<u8>,
    pass: bool,
    state: TokenState,
)
    requires
        command_of(request.cmd) is Download,
        bytes.len() <= usize::MAX,
    ensures
        ({
            let count = chunk_count(bytes.len());
            let answered = FileEventModel::Answered(
                reply_of(request, FileOutcomeModel::Bytes(bytes)),
            );
            file_actions(
                FilePhaseModel::Working(request),
                pass,
                seq![(answered, state)] + all_sent(count + 2, state),
            ) == seq![FileActionModel::SendSize(FileSize { size: count as usize })] + chunks_from(
                bytes,
                0,
            ).map_values(|part: Seq<u8>| FileActionModel::SendBytes(part)) + seq![
                FileActionModel::Flush,
                FileActionModel::Read,
            ]
        }),
{
    let count = chunk_count(bytes.len());
    let answered = FileEventModel::Answered(reply_of(request, FileOutcomeModel::Bytes(bytes)));
    let inputs = seq![(answered, state)] + all_sent(count + 2, state);
    let rest = all_sent(count + 2, state);
    assert(inputs.drop_first() =~= rest);
    lemma_download_goes_on(bytes, 0, pass, state);
    let sized = FilePhaseModel::SendingSize(request, bytes);
    assert(file_step(sized, pass, rest[0].0, state) == file_step(
        FilePhaseModel::SendingBytes(bytes, 0),
        pass,
        rest[0].0,
        state,
    ));
    assert(file_actions(sized, pass, rest) == file_actions(
        FilePhaseModel::SendingBytes(bytes, 0),
        pass,
        rest,
    ));
    let parts = chunks_from(bytes, 0).map_values(|part: Seq<u8>| FileActionModel::SendBytes(part));
    assert(file_actions(FilePhaseModel::Working(request), pass, inputs) =~= seq![
        FileActionModel::SendSize(FileSize { size: count as usize }),
    ] + parts + seq![FileActionModel::Flush, FileActionModel::Read]);
}

/// What happens to an upload whose frames all find their way into the file.
pub open spec fn upload_inputs(frames: Seq<Seq<u8>>, state: TokenState) -> Seq<FileInput>
    decreases frames.len(),
{
    if frames.len() == 0 {
        seq![]
    } else {
        seq![
            (FileEventModel::Incoming(Some(MessageModel::Binary(frames[0]))), state),
            (FileEventModel::Stored(true), state),
        ] + upload_inputs(frames.drop_first(), state)
    }
}

/// What storing an upload frame by frame takes.
pub open spec fn upload_actions(frames: Seq<Seq<u8>>) -> Seq<FileActionModel>
    decreases frames.len(),
{
    if frames.len() == 0 {
        seq![]
    } else {
        seq![FileActionModel::Store(frames[0]), FileActionModel::Receive] + upload_actions(
            frames.drop_first(),
        )
    }
}

/// The binary frames of an upload are put into the file one after the other, each as
/// it came.
pub proof fn law_upload_is_stored_as_it_came(
    frames: Seq<Seq<u8>>,
    pass: bool,
    state: TokenState,
)
    ensures
        file_actions(FilePhaseModel::Receiving, pass, upload_inputs(frames, state))
            == upload_actions(frames),
    decreases frames.len(),
{
    if frames.len() > 0 {
        let rest = frames.drop_first();
        law_upload_is_stored_as_it_came(rest, pass, state);
        let inputs = upload_inputs(frames, state);
        assert(inputs.drop_first().drop_first() =~= upload_inputs(rest, state));
        reveal_with_fuel(file_actions, 3);
        assert(file_actions(FilePhaseModel::Receiving, pass, inputs) =~= upload_actions(frames));
    }
}

/// A file socket that was given up asks for nothing any more.
pub proof fn law_stopped_file_socket_stays_stopped(
    pass: bool,
    event: FileEventModel,
    state: TokenState,
)
    ensures
        file_step(FilePhaseModel::Stopped, pass, event, state) == stopped(),
{
}

/// A request of a client that is served is parsed from the frame that it comes in and
/// worked on as it is; a refused one ends the socket; a text that is none is passed over.
pub proof fn law_served_request_is_worked_on(
    pass: bool,
    text: Seq<char>,
    request: FileRequestModel,
    state: TokenState,
)
    ensures
        ({
            let frame = FileEventModel::Incoming(Some(MessageModel::Text(text)));
            let (parsing, action) = file_step(FilePhaseModel::Reading, pass, frame, state);
            let parsed = |request: Option<FileRequestModel>|
                file_step(parsing, pass, FileEventModel::Parsed(request), state);
            let served = pass ==> state is ValidToken;
            &&& action == FileActionModel::Parse(text)
            &&& served ==> parsed(Some(request)) == (
                FilePhaseModel::Working(request),
                FileActionModel::Work(request),
            )
            &&& !served ==> parsed(Some(request)).1 is Stop
            &&& parsed(None) == (FilePhaseModel::Reading, FileActionModel::Read)
        }),
{
}

/// A frame without a text is passed over while requests are waited for; the end of the
/// socket, and a client that closes it, end it.
pub proof fn law_frame_without_a_request_is_passed_over(
    pass: bool,
    bytes: Seq<u8>,
    state: TokenState,
)
    ensures
        ({
            let incoming = |message: Option<MessageModel>|
                file_step(FilePhaseModel::Reading, pass, FileEventModel::Incoming(message), state);
            let next = (FilePhaseModel::Reading, FileActionModel::Read);
            &&& incoming(Some(MessageModel::Binary(bytes))) == next
            &&& incoming(Some(MessageModel::Other)) == next
            &&& incoming(Some(MessageModel::Close)).1 is Stop
            &&& incoming(None).1 is Stop
        }),
{
}

/// A frame that comes in while a request is worked on ends that work. A request in it takes
/// the other's place, with no look at the client's token; without one the next frame is
/// read. The end of the socket ends it.
pub proof fn law_new_request_takes_the_place_of_the_old_one(
    pass: bool,
    old_request: FileRequestModel,
    text: Seq<char>,
    bytes: Seq<u8>,
    request: FileRequestModel,
    state: TokenState,
)
    ensures
        ({
            let incoming = |message: Option<MessageModel>|
                file_step(
                    FilePhaseModel::Working(old_request),
                    pass,
                    FileEventModel::Incoming(message),
                    state,
                );
            let (parsing, action) = incoming(Some(MessageModel::Text(text)));
            let parsed = |request: Option<FileRequestModel>|
                file_step(parsing, pass, FileEventModel::Parsed(request), state);
            let next = (FilePhaseModel::Reading, FileActionModel::Read);
            &&& action == FileActionModel::Parse(text)
            &&& parsed(Some(request)) == (
                FilePhaseModel::Working(request),
                FileActionModel::Work(request),
            )
            &&& parsed(None) == next
            &&& incoming(Some(MessageModel::Binary(bytes))) == next
            &&& incoming(Some(MessageModel::Other)) == next
            &&& incoming(Some(MessageModel::Close)) == next
            &&& incoming(None).1 is Stop
        }),
{
}

/// Work that fails is done again, on the same request, and so is a download whose size
/// could not be put into a message.
pub proof fn law_failed_work_is_done_again(
    pass: bool,
    request: FileRequestModel,
    error: FileError,
    bytes: Seq<u8>,
    state: TokenState,
)
    ensures
        ({
            let again = (FilePhaseModel::Working(request), FileActionModel::Work(request));
            let answered = FileEventModel::Answered(Err(error));
            let dl = FileEventModel::Answered(
                reply_of(request, FileOutcomeModel::Bytes(bytes)),
            );
            let sizing = file_step(FilePhaseModel::Working(request), pass, dl, state).0;
            &&& file_step(FilePhaseModel::Working(request), pass, answered, state) == again
            &&& request.cmd == "dl"@ ==> file_step(
                sizing,
                pass,
                FileEventModel::Unencodable,
                state,
            ) == again
        }),
{
    law_work_is_told_by_the_command(request.cmd);
}

/// An opened file is sent as it was read; then the next frame is read if and only if the
/// socket took it.
pub proof fn law_opened_file_is_sent_whole(
    pass: bool,
    request: FileRequestModel,
    text: Seq<char>,
    taken: bool,
    state: TokenState,
)
    requires
        request.cmd == "open"@,
    ensures
        ({
            let answered = FileEventModel::Answered(
                reply_of(request, FileOutcomeModel::Text(text)),
            );
            let (sending, action) = file_step(
                FilePhaseModel::Working(request),
                pass,
                answered,
                state,
            );
            let next = file_step(sending, pass, FileEventModel::Sent(taken), state);
            &&& action == FileActionModel::SendText(text)
            &&& taken ==> next == (FilePhaseModel::Reading, FileActionModel::Read)
            &&& !taken ==> next.1 is Stop
        }),
{
    law_work_is_told_by_the_command(request.cmd);
}

/// A request that has nothing sent, once its work is done, is followed by the next frame.
pub proof fn law_silent_request_is_followed_by_the_next(
    pass: bool,
    request: FileRequestModel,
    state: TokenState,
)
    requires
        request.cmd != "open"@,
        request.cmd != "dl"@,
        request.cmd != "up"@,
    ensures
        file_step(
            FilePhaseModel::Working(request),
            pass,
            FileEventModel::Answered(reply_of(request, FileOutcomeModel::Done)),
            state,
        ) == (FilePhaseModel::Reading, FileActionModel::Read),
{
    law_work_is_told_by_the_command(request.cmd);
}

/// The bytes that some actions send, in order.
pub open spec fn all_sent_bytes(actions: Seq<FileActionModel>) -> Seq<u8>
    decreases actions.len(),
{
    if actions.len() == 0 {
        seq![]
    } else {
        let rest = all_sent_bytes(actions.drop_first());
        match actions[0] {
            FileActionModel::SendBytes(bytes) => bytes + rest,
            _ => rest,
        }
    }
}

proof fn lemma_parts_are_sent(parts: Seq<Seq<u8>>)
    ensures
        all_sent_bytes(
            parts.map_values(|part: Seq<u8>| FileActionModel::SendBytes(part)) + seq![
                FileActionModel::Flush,
                FileActionModel::Read,
            ],
        ) == concatenated(parts),
    decreases parts.len(),
{
    let end = seq![FileActionModel::Flush, FileActionModel::Read];
    let actions = parts.map_values(|part: Seq<u8>| FileActionModel::SendBytes(part)) + end;
    if parts.len() == 0 {
        reveal_with_fuel(all_sent_bytes, 3);
        assert(actions =~= end);
        assert(end.drop_first().drop_first() =~= Seq::empty());
    } else {
        lemma_parts_are_sent(parts.drop_first());
        assert(actions.drop_first() =~= parts.drop_first().map_values(
            |part: Seq<u8>| FileActionModel::SendBytes(part),
        ) + end);
        assert(actions[0] == FileActionModel::SendBytes(parts[0]));
    }
}

/// A download reaches the client byte for byte, as long as the socket takes what it is
/// handed: it is announced first, its bytes put together are what was read, no message
/// holds more than a million of them, and in the end the next frame is read.
pub proof fn law_download_arrives_byte_for_byte(
    request: FileRequestModel,
    bytes: Seq<u8>,
    pass: bool,
    state: TokenState,
)
    requires
        request.cmd == "dl"@,
        bytes.len() <= usize::MAX,
    ensures
        ({
            let answered = FileEventModel::Answered(
                reply_of(request, FileOutcomeModel::Bytes(bytes)),
            );
            let actions = file_actions(
                FilePhaseModel::Working(request),
                pass,
                seq![(answered, state)] + all_sent(chunk_count(bytes.len()) + 2, state),
            );
            &&& actions[0] is SendSize
            &&& all_sent_bytes(actions) == bytes
            &&& actions.last() is Read
            &&& actions[actions.len() - 2] is Flush
            &&& forall|k: int|
                0 <= k < actions.len() ==> ((#[trigger] actions[k]) matches FileActionModel::SendBytes(
                    part,
                ) ==> 0 < part.len() <= 1_000_000)
        }),
{
    law_work_is_told_by_the_command(request.cmd);
    law_download_is_sent_whole(request, bytes, pass, state);
    law_chunks_make_up_the_download(bytes);
    let count = chunk_count(bytes.len());
    let parts = chunks_from(bytes, 0);
    lemma_parts_are_sent(parts);
    let answered = FileEventModel::Answered(reply_of(request, FileOutcomeModel::Bytes(bytes)));
    let actions = file_actions(
        FilePhaseModel::Working(request),
        pass,
        seq![(answered, state)] + all_sent(count + 2, state),
    );
    let sends = parts.map_values(|part: Seq<u8>| FileActionModel::SendBytes(part));
    assert(actions.drop_first() =~= sends + seq![FileActionModel::Flush, FileActionModel::Read]);
    assert forall|k: int| 0 <= k < actions.len() implies ((
    #[trigger] actions[k]) matches FileActionModel::SendBytes(part) ==> 0 < part.len()
        <= 1_000_000) by {
        if 0 < k <= count {
            assert(actions[k] == sends[k - 1]);
            assert(parts[k - 1] == chunk(bytes, (k - 1) as nat));
            law_chunks_are_full_but_for_the_last(bytes, (k - 1) as nat);
        }
    }
}

/// A socket that does not take what it is handed is given up, whatever part of an answer
/// that is.
pub proof fn law_socket_that_takes_nothing_is_given_up(
    phase: FilePhaseModel,
    pass: bool,
    state: TokenState,
)
    ensures
        file_step(phase, pass, FileEventModel::Sent(false), state).1 is Stop,
{
}

/// An upload whose size is any number but zero has every binary frame stored that the
/// client sends, each as it came, from its very first one on; there is no limit to them.
pub proof fn law_upload_stores_every_frame(
    request: FileRequestModel,
    size: usize,
    frames: Seq<Seq<u8>>,
    pass: bool,
    state: TokenState,
)
    requires
        request.cmd == "up"@,
        number_in(request.arg) == Some(size),
        size > 0,
    ensures
        ({
            let answered = FileEventModel::Answered(reply_of(request, FileOutcomeModel::Done));
            file_actions(
                FilePhaseModel::Working(request),
                pass,
                seq![(answered, state)] + upload_inputs(frames, state),
            ) =~= seq![FileActionModel::Receive] + upload_actions(frames)
        }),
{
    law_work_is_told_by_the_command(request.cmd);
    law_upload_is_stored_as_it_came(frames, pass, state);
    let answered = FileEventModel::Answered(reply_of(request, FileOutcomeModel::Done));
    let inputs = seq![(answered, state)] + upload_inputs(frames, state);
    assert(inputs.drop_first() =~= upload_inputs(frames, state));
}

/// An upload of size zero stores nothing, and one whose argument is no number starts its
/// work again.
pub proof fn law_upload_of_nothing_takes_no_frame(
    request: FileRequestModel,
    pass: bool,
    state: TokenState,
)
    requires
        request.cmd == "up"@,
    ensures
        ({
            let answered = FileEventModel::Answered(reply_of(request, FileOutcomeModel::Done));
            let next = file_step(FilePhaseModel::Working(request), pass, answered, state);
            &&& number_in(request.arg) == Some(0usize) ==> next == (
                FilePhaseModel::Reading,
                FileActionModel::Read,
            )
            &&& number_in(request.arg) is None ==> next == (
                FilePhaseModel::Working(request),
                FileActionModel::Work(request),
            )
        }),
{
    law_work_is_told_by_the_command(request.cmd);
}

/// An upload goes on until a frame is not binary or cannot be stored; the next frame is
/// then read as a request. The end of the socket ends the upload too.
pub proof fn law_upload_ends_with_another_frame(
    pass: bool,
    text: Seq<char>,
    bytes: Seq<u8>,
    state: TokenState,
)
    ensures
        ({
            let incoming = |message: Option<MessageModel>|
                file_step(
                    FilePhaseModel::Receiving,
                    pass,
                    FileEventModel::Incoming(message),
                    state,
                );
            let (storing, action) = incoming(Some(MessageModel::Binary(bytes)));
            let next = (FilePhaseModel::Reading, FileActionModel::Read);
            &&& action == FileActionModel::Store(bytes)
            &&& file_step(storing, pass, FileEventModel::Stored(true), state) == (
                FilePhaseModel::Receiving,
                FileActionModel::Receive,
            )
            &&& file_step(storing, pass, FileEventModel::Stored(false), state) == next
            &&& incoming(Some(MessageModel::Text(text))) == next
            &&& incoming(Some(MessageModel::Close)) == next
            &&& incoming(Some(MessageModel::Other)) == next
            &&& incoming(None) == next
        }),
{
}

/// Events and actions are modelled by their kinds and all that they hold.
pub proof fn law_file_socket_is_modelled_whole(
    message: Option<Message>,
    request: FileRequest,
    reply: Result<Option<FileHandlerHelperReturns>, FileError>,
    flag: bool,
    text: String,
    bytes: Vec<u8>,
    size: FileSize,
)
    ensures
        FileEvent::Incoming(message)@ == FileEventModel::Incoming(message_of(message)),
        FileEvent::Parsed(Some(request))@ == FileEventModel::Parsed(Some(request@)),
        FileEvent::Parsed(None)@ == FileEventModel::Parsed(None),
        FileEvent::Answered(reply)@ == FileEventModel::Answered(reply_model(reply)),
        FileEvent::Unencodable@ == FileEventModel::Unencodable,
        FileEvent::Sent(flag)@ == FileEventModel::Sent(flag),
        FileEvent::Stored(flag)@ == FileEventModel::Stored(flag),
        FileAction::Read@ == FileActionModel::Read,
        FileAction::Parse(text)@ == FileActionModel::Parse(text@),
        FileAction::Work(request)@ == FileActionModel::Work(request@),
        FileAction::SendText(text)@ == FileActionModel::SendText(text@),
        FileAction::SendSize(size)@ == FileActionModel::SendSize(size),
        FileAction::SendBytes(bytes)@ == FileActionModel::SendBytes(bytes@),
        FileAction::Flush@ == FileActionModel::Flush,
        FileAction::Receive@ == FileActionModel::Receive,
        FileAction::Store(bytes)@ == FileActionModel::Store(bytes@),
        FileAction::Stop@ == FileActionModel::Stop,
{
}

} // verus!
