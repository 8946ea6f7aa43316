//! What a client can do with files, one request at a time.

use vstd::prelude::*;

use crate::message::Message;
use crate::text::{parse_number, same_text};
#[allow(unused_imports)]
use crate::message::MessageModel;
#[allow(unused_imports)]
use crate::text::number_in;

verus! {

/// A request on the file socket.
#[derive(Debug, PartialEq, Eq)]
pub struct FileRequest {
    pub path: String,
    pub cmd: String,
    pub arg: String,
}

/// The model of a [`FileRequest`].
pub struct FileRequestModel {
    pub path: Seq<char>,
    pub cmd: Seq<char>,
    pub arg: Seq<char>,
}

impl View for FileRequest {
    type V = FileRequestModel;

    open spec fn view(&self) -> FileRequestModel {
        FileRequestModel { path: self.path@, cmd: self.cmd@, arg: self.arg@ }
    }
}

impl Clone for FileRequest {
    fn clone(&self) -> (copy: FileRequest)
        ensures
            copy == *self,
    {
        FileRequest { path: self.path.clone(), cmd: self.cmd.clone(), arg: self.arg.clone() }
    }
}

/// The model of a parse that may have failed.
pub open spec fn file_request_of(request: Option<FileRequest>) -> Option<FileRequestModel> {
    match request {
        Some(request) => Some(request@),
        None => None,
    }
}

/// The text of a frame that may hold a file request: only a text frame does.
pub open spec fn request_text(data: MessageModel) -> Option<Seq<char>> {
    match data {
        MessageModel::Text(text) => Some(text),
        _ => None,
    }
}

/// The text of a frame that may hold a file request.
pub fn get_file_req(data: Message) -> (text: Option<String>)
    ensures
        match text {
            Some(text) => request_text(data@) == Some(text@),
            None => request_text(data@) is None,
        },
{
    match data {
        Message::Text(text) => Some(text),
        _ => None,
    }
}

/// What a file request has done first.
#[derive(Debug, Clone, Copy, PartialEq, Eq, Structural)]
pub enum FileCommand {
    /// The file is read as a text.
    Open,
    /// The file is read, or the directory archived.
    Download,
    /// The file is created, to be filled by the client.
    Upload,
    /// The argument is written to the file.
    Save,
    /// Nothing.
    Nothing,
}

/// What a command has done first.
pub open spec fn command_of(cmd: Seq<char>) -> FileCommand {
    if cmd == "open"@ {
        FileCommand::Open
    } else if cmd == "dl"@ {
        FileCommand::Download
    } else if cmd == "up"@ {
        FileCommand::Upload
    } else if cmd == "save"@ {
        FileCommand::Save
    } else {
        FileCommand::Nothing
    }
}

/// What a command has done first.
pub fn file_command(cmd: &str) -> (command: FileCommand)
    ensures
        command == command_of(cmd@),
{
    if same_text(cmd, "open") {
        FileCommand::Open
    } else if same_text(cmd, "dl") {
        FileCommand::Download
    } else if same_text(cmd, "up") {
        FileCommand::Upload
    } else if same_text(cmd, "save") {
        FileCommand::Save
    } else {
        FileCommand::Nothing
    }
}

/// How many bytes of a download one frame holds at most.
pub const CHUNK_SIZE: usize = 1_000_000;

/// How large a download is, in millions of bytes, rounded up.
#[derive(Debug, Clone, Copy, PartialEq, Eq, Structural)]
pub struct FileSize {
    pub size: usize,
}

/// The number of frames that `len` bytes take.
pub open spec fn chunk_count(len: nat) -> nat {
    (len + CHUNK_SIZE - 1) as nat / CHUNK_SIZE as nat
}

/// The size that a download is announced with.
pub fn file_size(len: usize) -> (size: FileSize)
    ensures
        size.size == chunk_count(len as nat),
{
    let whole: usize = len / CHUNK_SIZE;
    if len % CHUNK_SIZE == 0 {
        FileSize { size: whole }
    } else {
        FileSize { size: whole + 1 }
    }
}

/// The bytes of a download that its frame number `k` holds.
pub open spec fn chunk(bytes: Seq<u8>, k: nat) -> Seq<u8> {
    let start = k * CHUNK_SIZE;
    let end = if start + CHUNK_SIZE < bytes.len() {
        start + CHUNK_SIZE
    } else {
        bytes.len() as int
    };
    bytes.subrange(start, end)
}

/// What came of the work that a command has done first.
#[derive(Debug, PartialEq, Eq)]
pub enum FileOutcome {
    /// A file was read as a text.
    Text(String),
    /// A file was read, or a directory archived.
    Bytes(Vec<u8>),
    /// A file was created or written, or nothing was to be done.
    Done,
    /// The work failed.
    Failed,
}

/// What a file request is answered with.
#[derive(Debug, PartialEq, Eq)]
pub enum FileHandlerHelperReturns {
    /// The text of a file.
    String(String),
    /// A download and its size.
    SizeBuf(FileSize, Vec<u8>),
    /// An upload and the size that it gives: with a size of zero it takes no frame,
    /// with any other one as many as the client sends.
    StreamUpload(usize),
}

/// The model of a [`FileHandlerHelperReturns`].
pub enum ReplyModel {
    String(Seq<char>),
    SizeBuf(FileSize, Seq<u8>),
    StreamUpload(usize),
}

impl View for FileHandlerHelperReturns {
    type V = ReplyModel;

    open spec fn view(&self) -> ReplyModel {
        match self {
            FileHandlerHelperReturns::String(text) => ReplyModel::String(text@),
            FileHandlerHelperReturns::SizeBuf(size, bytes) => ReplyModel::SizeBuf(*size, bytes@),
            FileHandlerHelperReturns::StreamUpload(size) => ReplyModel::StreamUpload(*size),
        }
    }
}

/// Why a file request has no answer.
#[derive(Debug, Clone, Copy, PartialEq, Eq, Structural)]
pub enum FileError {
    /// The work that the command has done first failed.
    Failed,
    /// An upload does not say how much it takes.
    InvalidMaxSize,
}

/// The model of a [`FileOutcome`].
pub enum FileOutcomeModel {
    Text(Seq<char>),
    Bytes(Seq<u8>),
    Done,
    Failed,
}

impl View for FileOutcome {
    type V = FileOutcomeModel;

    open spec fn view(&self) -> FileOutcomeModel {
        match self {
            FileOutcome::Text(text) => FileOutcomeModel::Text(text@),
            FileOutcome::Bytes(bytes) => FileOutcomeModel::Bytes(bytes@),
            FileOutcome::Done => FileOutcomeModel::Done,
            FileOutcome::Failed => FileOutcomeModel::Failed,
        }
    }
}

/// What a file request is answered with, given what came of its work: the text for
/// an opened file, the bytes and their size for a download, the argument as a number
/// for an upload, and nothing for all else. An outcome that does not belong to the
/// command counts as a failure.
pub open spec fn reply_of(request: FileRequestModel, outcome: FileOutcomeModel) -> Result<
    Option<ReplyModel>,
    FileError,
> {
    match (command_of(request.cmd), outcome) {
        (FileCommand::Open, FileOutcomeModel::Text(text)) => Ok(Some(ReplyModel::String(text))),
        (FileCommand::Download, FileOutcomeModel::Bytes(bytes)) => Ok(
            Some(
                ReplyModel::SizeBuf(
                    FileSize { size: chunk_count(bytes.len()) as usize },
                    bytes,
                ),
            ),
        ),
        (FileCommand::Upload, FileOutcomeModel::Done) => match number_in(request.arg) {
            Some(size) => Ok(Some(ReplyModel::StreamUpload(size))),
            None => Err(FileError::InvalidMaxSize),
        },
        (FileCommand::Save, FileOutcomeModel::Done) => Ok(None),
        (FileCommand::Nothing, FileOutcomeModel::Done) => Ok(None),
        _ => Err(FileError::Failed),
    }
}

/// The model of an answer that may have failed.
pub open spec fn reply_model(reply: Result<Option<FileHandlerHelperReturns>, FileError>) -> Result<
    Option<ReplyModel>,
    FileError,
> {
    match reply {
        Ok(Some(reply)) => Ok(Some(reply@)),
        Ok(None) => Ok(None),
        Err(error) => Err(error),
    }
}

/// What a file request is answered with, given what came of its work.
pub fn file_handler_helper(request: &FileRequest, outcome: FileOutcome) -> (reply: Result<
    Option<FileHandlerHelperReturns>,
    FileError,
>)
    ensures
        reply_model(reply) == reply_of(request@, outcome@),
{
    match (file_command(request.cmd.as_str()), outcome) {
        (FileCommand::Open, FileOutcome::Text(text)) => Ok(
            Some(FileHandlerHelperReturns::String(text)),
        ),
        (FileCommand::Download, FileOutcome::Bytes(bytes)) => {
            let size = file_size(bytes.len());
            Ok(Some(FileHandlerHelperReturns::SizeBuf(size, bytes)))
        },
        (FileCommand::Upload, FileOutcome::Done) => match parse_number(request.arg.as_str()) {
            Some(size) => Ok(Some(FileHandlerHelperReturns::StreamUpload(size))),
            None => Err(FileError::InvalidMaxSize),
        },
        (FileCommand::Save, FileOutcome::Done) => Ok(None),
        (FileCommand::Nothing, FileOutcome::Done) => Ok(None),
        _ => Err(FileError::Failed),
    }
}

/// The chunks of a download from number `k` on, one after the other.
pub open spec fn chunks_from(bytes: Seq<u8>, k: nat) -> Seq<Seq<u8>> {
    Seq::new(
        (chunk_count(bytes.len()) - k) as nat,
        |i: int| chunk(bytes, (k + i) as nat),
    )
}

/// Some byte strings, one after the other.
pub open spec fn concatenated(parts: Seq<Seq<u8>>) -> Seq<u8>
    decreases parts.len(),
{
    if parts.len() == 0 {
        seq![]
    } else {
        parts[0] + concatenated(parts.drop_first())
    }
}

/// Where the chunks of a download lie: the last one ends the download, and the ones
/// before it are full.
proof fn lemma_chunk_bounds(len: nat, k: nat)
    ensures
        k < chunk_count(len) <==> k * CHUNK_SIZE < len,
        k + 1 < chunk_count(len) ==> (k + 1) * CHUNK_SIZE < len,
        k + 1 == chunk_count(len) ==> (k + 1) * CHUNK_SIZE >= len,
{
}

proof fn lemma_chunks_from(bytes: Seq<u8>, k: nat)
    requires
        k <= chunk_count(bytes.len()),
    ensures
        k * CHUNK_SIZE <= bytes.len() ==> concatenated(chunks_from(bytes, k)) == bytes.skip(
            k * CHUNK_SIZE as int,
        ),
        k * CHUNK_SIZE > bytes.len() ==> concatenated(chunks_from(bytes, k)) == Seq::<u8>::empty(),
    decreases chunk_count(bytes.len()) - k,
{
    let parts = chunks_from(bytes, k);
    lemma_chunk_bounds(bytes.len(), k);
    if k < chunk_count(bytes.len()) {
        assert(parts[0] == chunk(bytes, k));
        assert(parts.drop_first() =~= chunks_from(bytes, k + 1));
        lemma_chunks_from(bytes, k + 1);
        assert(concatenated(parts) =~= bytes.skip(k * CHUNK_SIZE as int));
    } else {
        assert(parts.len() == 0);
        assert(k * CHUNK_SIZE <= bytes.len() ==> bytes.skip(k * CHUNK_SIZE as int) =~= seq![]);
    }
}

/// The chunks of a download put together are the download.
pub proof fn law_chunks_make_up_the_download(bytes: Seq<u8>)
    ensures
        concatenated(chunks_from(bytes, 0)) == bytes,
{
    lemma_chunks_from(bytes, 0);
    assert(bytes.skip(0) =~= bytes);
}

/// A download is announced with the number of its chunks.
pub proof fn law_size_counts_the_chunks(request: FileRequestModel, bytes: Seq<u8>)
    requires
        command_of(request.cmd) is Download,
        bytes.len() <= usize::MAX,
    ensures
        reply_of(request, FileOutcomeModel::Bytes(bytes)) matches Ok(Some(reply)) && reply matches ReplyModel::SizeBuf(
            size,
            sent,
        ) && sent == bytes && size.size == chunks_from(bytes, 0).len(),
{
}

/// No chunk is empty or too large, and only the last one is not full.
pub proof fn law_chunks_are_full_but_for_the_last(bytes: Seq<u8>, k: nat)
    requires
        k < chunk_count(bytes.len()),
    ensures
        0 < chunk(bytes, k).len() <= 1_000_000,
        k + 1 < chunk_count(bytes.len()) ==> chunk(bytes, k).len() == 1_000_000,
{
    lemma_chunk_bounds(bytes.len(), k);
}

/// The commands all differ.
proof fn lemma_commands_differ()
    ensures
        "open"@.len() == 4 && "open"@[0] == 'o',
        "dl"@.len() == 2 && "dl"@[0] == 'd',
        "up"@.len() == 2 && "up"@[0] == 'u',
        "save"@.len() == 4 && "save"@[0] == 's',
{
    reveal_strlit("open");
    reveal_strlit("dl");
    reveal_strlit("up");
    reveal_strlit("save");
}

/// Each command has its own work done, and no other text is a command.
pub proof fn law_work_is_told_by_the_command(cmd: Seq<char>)
    ensures
        command_of(cmd) is Open <==> cmd == "open"@,
        command_of(cmd) is Download <==> cmd == "dl"@,
        command_of(cmd) is Upload <==> cmd == "up"@,
        command_of(cmd) is Save <==> cmd == "save"@,
{
    lemma_commands_differ();
}

/// What a request is answered with once its work went well: an opened file with its text,
/// a download with all of its bytes, an upload with the number that its argument gives,
/// and everything else with nothing. Neither the path nor, but for an upload, the argument
/// plays a part.
pub proof fn law_answer_is_what_was_asked_for(
    request: FileRequestModel,
    text: Seq<char>,
    bytes: Seq<u8>,
)
    requires
        bytes.len() <= usize::MAX,
    ensures
        request.cmd == "open"@ ==> reply_of(request, FileOutcomeModel::Text(text)) == Ok::<
            Option<ReplyModel>,
            FileError,
        >(Some(ReplyModel::String(text))),
        request.cmd == "dl"@ ==> {
            &&& reply_of(request, FileOutcomeModel::Bytes(bytes)) matches Ok(Some(reply))
            &&& reply matches ReplyModel::SizeBuf(size, sent)
            &&& sent == bytes
            &&& size.size * 1_000_000 >= bytes.len()
            &&& size.size > 0 ==> (size.size - 1) * 1_000_000 < bytes.len()
        },
        request.cmd == "up"@ ==> reply_of(request, FileOutcomeModel::Done) == match number_in(
            request.arg,
        ) {
            Some(size) => Ok::<Option<ReplyModel>, FileError>(
                Some(ReplyModel::StreamUpload(size)),
            ),
            None => Err(FileError::InvalidMaxSize),
        },
        request.cmd != "open"@ && request.cmd != "dl"@ && request.cmd != "up"@ ==> reply_of(
            request,
            FileOutcomeModel::Done,
        ) == Ok::<Option<ReplyModel>, FileError>(None),
        reply_of(request, FileOutcomeModel::Failed) == Err::<Option<ReplyModel>, FileError>(
            FileError::Failed,
        ),
{
    lemma_commands_differ();
}

/// A file request is looked for in the whole text of a text frame, and in no other frame.
pub proof fn law_only_text_frames_hold_requests(text: Seq<char>, bytes: Seq<u8>)
    ensures
        request_text(MessageModel::Text(text)) == Some(text),
        request_text(MessageModel::Binary(bytes)) is None,
        request_text(MessageModel::Close) is None,
        request_text(MessageModel::Other) is None,
{
}

/// Requests, outcomes and answers are modelled by their kinds and all that they hold.
pub proof fn law_files_are_modelled_whole(
    request: FileRequest,
    text: String,
    bytes: Vec<u8>,
    size: FileSize,
    frames: usize,
    error: FileError,
)
    ensures
        file_request_of(Some(request)) == Some(
            (FileRequestModel { path: request.path@, cmd: request.cmd@, arg: request.arg@ }),
        ),
        file_request_of(None) is None,
        FileOutcome::Text(text)@ == FileOutcomeModel::Text(text@),
        FileOutcome::Bytes(bytes)@ == FileOutcomeModel::Bytes(bytes@),
        FileOutcome::Done@ == FileOutcomeModel::Done,
        FileOutcome::Failed@ == FileOutcomeModel::Failed,
        reply_model(Ok(Some(FileHandlerHelperReturns::String(text)))) == Ok::<
            Option<ReplyModel>,
            FileError,
        >(Some(ReplyModel::String(text@))),
        reply_model(Ok(Some(FileHandlerHelperReturns::SizeBuf(size, bytes)))) == Ok::<
            Option<ReplyModel>,
            FileError,
        >(Some(ReplyModel::SizeBuf(size, bytes@))),
        reply_model(Ok(Some(FileHandlerHelperReturns::StreamUpload(frames)))) == Ok::<
            Option<ReplyModel>,
            FileError,
        >(Some(ReplyModel::StreamUpload(frames))),
        reply_model(Ok(None)) == Ok::<Option<ReplyModel>, FileError>(None),
        reply_model(Err(error)) == Err::<Option<ReplyModel>, FileError>(error),
{
}

} // verus!
