//! The archive that a directory is downloaded as.

use std::io::Write;

use vstd::prelude::*;
#[allow(unused_imports)]
use vstd::string::*;

#[allow(unused_imports)]
use crate::token::text_of;

verus! {

/// An entry of an archive: its name and, for a file, its contents.
pub type Entry = (Seq<char>, Option<Seq<u8>>);

/// A zip archive that is being written to memory. It holds the outside writer
/// itself, whose type is bound by traits of the standard library that have no
/// specification.
#[verifier::external_body]
pub struct ZipSink {
    inner: zip::ZipWriter<std::io::Cursor<Vec<u8>>>,
}

/// The entries that were written to an archive, in order: for a file, with the bytes
/// that the writer has taken.
pub uninterp spec fn zip_entries(sink: ZipSink) -> Seq<(Seq<char>, Option<Seq<u8>>)>;

/// How many bytes a file of an archive has at most, as it is and deflated.
pub const FILE_LIMIT: u64 = 0xffff_ffff;

/// How many bytes a file can have and be within the limit in any case when it is
/// deflated. No byte is deflated to more than two, for no code has more than fifteen
/// bits; and a block adds less than a thousand bytes, but covers more than thirty
/// thousand, the last one aside.
pub const SAFE_SIZE: u64 = 0x800_0000;

/// Whether the bytes that `zip::ZipWriter` deflates these contents to, in one piece
/// and at the default level, are within the limit.
pub uninterp spec fn deflates_within_limit(contents: Seq<u8>) -> bool;

/// Whether a file with these contents can be in an archive.
pub open spec fn zip_takes(contents: Seq<u8>) -> bool {
    contents.len() <= SAFE_SIZE || (contents.len() <= FILE_LIMIT && deflates_within_limit(contents))
}

/// Whether an archive with these entries can be gone on with, and finished.
pub open spec fn zip_accepts(entries: Seq<(Seq<char>, Option<Seq<u8>>)>) -> bool {
    forall|i: int|
        0 <= i < entries.len() ==> ((#[trigger] entries[i]).1 matches Some(contents) ==> zip_takes(
            contents,
        ))
}

/// The document that `zip::ZipWriter::finish` makes of these entries, each file
/// being written in one piece with default options, and so dated 1980-01-01 and
/// deflated at the default level.
pub uninterp spec fn zip_document(entries: Seq<(Seq<char>, Option<Seq<u8>>)>) -> Seq<u8>;

/// The error that `zip` gives.
#[verifier::external_type_specification]
#[verifier::external_body]
pub struct ExZipError(zip::result::ZipError);

/// The error that writing to a `zip` archive gives.
#[verifier::external_type_specification]
#[verifier::external_body]
pub struct ExIoError(std::io::Error);

/// Calls `zip::ZipWriter::new` on an empty buffer. Trusted of it: the archive has no
/// entries yet.
#[verifier::external_body]
fn zip_new() -> (sink: ZipSink)
    ensures
        zip_entries(sink) == Seq::<Entry>::empty(),
{
    ZipSink { inner: zip::ZipWriter::new(std::io::Cursor::new(Vec::new())) }
}

/// Calls `zip::ZipWriter::start_file` with default options. Trusted of it: where every
/// file before has taken its contents and deflated within the limit, it succeeds, for
/// nothing else fails where the archive is written to memory; the archive then has one
/// entry more, a file of that very name with nothing in it yet. Other archives are left
/// out: the writer would close its last file once when it fails and once more when it is
/// dropped, and its arithmetic is not made for that.
#[verifier::external_body]
fn zip_start_file(sink: ZipSink, name: &str) -> (started: Result<ZipSink, zip::result::ZipError>)
    requires
        zip_accepts(zip_entries(sink)),
    ensures
        started is Ok,
        started matches Ok(after) ==> zip_entries(after) == zip_entries(sink).push(
            (name@, Some(Seq::empty())),
        ),
{
    let mut sink = sink;
    sink.inner.start_file(name, zip::write::FileOptions::default())?;
    Ok(sink)
}

/// Calls `write_all` on the `zip::ZipWriter`. Trusted of it: it succeeds if and only if
/// the bytes are within the limit, and they are then the contents of the file that was
/// started last; when it fails, that file has taken more of the first bytes than the
/// limit allows. All other entries are as they were.
#[verifier::external_body]
fn zip_write(sink: &mut ZipSink, contents: &[u8]) -> (written: Result<(), std::io::Error>)
    requires
        zip_entries(*old(sink)).len() > 0,
        zip_entries(*old(sink)).last().1 == Some(Seq::<u8>::empty()),
    ensures
        written is Ok <==> contents@.len() <= FILE_LIMIT,
        written is Ok ==> zip_entries(*final(sink)) == entries_filled(
            zip_entries(*old(sink)),
            Some(contents@),
        ),
        written is Err ==> overfilled(
            zip_entries(*old(sink)),
            contents@,
            zip_entries(*final(sink)),
        ),
{
    sink.inner.write_all(contents)
}

/// Calls `zip::ZipWriter::add_directory` with default options. Trusted of it: where every
/// file before has taken its contents and deflated within the limit, it succeeds, and
/// the archive has one entry more, a directory of that name, with a slash behind it
/// unless it ends in a slash or a backslash. Other archives are left out, as for
/// `zip_start_file`.
#[verifier::external_body]
fn zip_add_directory(sink: ZipSink, name: &str) -> (added: Result<ZipSink, zip::result::ZipError>)
    requires
        zip_accepts(zip_entries(sink)),
    ensures
        added is Ok,
        added matches Ok(after) ==> zip_entries(after) == zip_entries(sink).push(
            (directory_name(name@), None),
        ),
{
    let mut sink = sink;
    sink.inner.add_directory(name, zip::write::FileOptions::default())?;
    Ok(sink)
}

/// Calls `zip::ZipWriter::finish` and takes the buffer. Trusted of it: where every file
/// has taken its contents and deflated within the limit, it succeeds, and the document
/// depends on the entries alone, and is what `zip_document` names. Other archives are
/// left out, as for `zip_start_file`.
#[verifier::external_body]
fn zip_finish(sink: ZipSink) -> (document: Result<Vec<u8>, zip::result::ZipError>)
    requires
        zip_accepts(zip_entries(sink)),
    ensures
        document is Ok,
        document matches Ok(bytes) ==> bytes@ == zip_document(zip_entries(sink)),
{
    let mut sink = sink;
    sink.inner.finish().map(std::io::Cursor::into_inner)
}

/// Calls `zip::ZipWriter::finish` on an archive that holds nothing but a file with these
/// contents. Trusted of it: it succeeds if and only if they deflate to bytes within the
/// limit, which depends on the contents alone. The writer is not dropped, because that
/// would close the file once more where it failed; its buffer is.
#[verifier::external_body]
fn zip_fits(contents: &[u8]) -> (fits: bool)
    requires
        contents@.len() <= FILE_LIMIT,
    ensures
        fits == deflates_within_limit(contents@),
{
    let mut buffer: Vec<u8> = Vec::new();
    let mut writer = zip::ZipWriter::new(std::io::Cursor::new(&mut buffer));
    let fits = writer.start_file("", zip::write::FileOptions::default()).is_ok()
        && writer.write_all(contents).is_ok() && writer.finish().is_ok();
    std::mem::forget(writer);
    fits
}

/// Whether `after` is what an archive holds whose last file was handed more contents
/// than it can have: it has taken more of the first bytes than the limit allows.
pub open spec fn overfilled(before: Seq<Entry>, contents: Seq<u8>, after: Seq<Entry>) -> bool {
    exists|n: int|
        FILE_LIMIT < n <= contents.len() && after == entries_filled(
            before,
            Some(#[trigger] contents.take(n)),
        )
}

/// The name that a directory has in an archive.
pub open spec fn directory_name(name: Seq<char>) -> Seq<char> {
    if name.len() > 0 && (name.last() == '/' || name.last() == '\\') {
        name
    } else {
        name + "/"@
    }
}

/// A path below another one.
pub open spec fn joined(base: Seq<char>, path: Seq<char>) -> Seq<char> {
    if path.len() > 0 && path[0] == '/' {
        path
    } else if base.len() == 0 || base.last() == '/' {
        base + path
    } else {
        base + "/"@ + path
    }
}

/// A path below another one.
pub fn join(base: &str, path: &str) -> (whole: String)
    ensures
        whole@ == joined(base@, path@),
{
    if path.unicode_len() > 0 && path.get_char(0) == '/' {
        return path.to_owned();
    }
    let mut whole: String = base.to_owned();
    let n: usize = base.unicode_len();
    if n > 0 && base.get_char(n - 1) != '/' {
        whole.append("/");
    }
    whole.append(path);
    whole
}

/// Why a directory cannot be archived.
#[derive(Debug, Clone, Copy, PartialEq, Eq, Structural)]
pub enum ArchiveError {
    /// The directory has no name of its own.
    NoFileName,
    /// Something was visited that does not lie in the directory.
    NotAChild,
    /// A file could not be added.
    AddFile,
    /// The contents of a file could not be added.
    WriteFile,
    /// A directory could not be added.
    AddDirectory,
    /// The archive could not be finished.
    Finish,
}

/// An archive that is ready for the next entry.
pub struct Archive {
    sink: ZipSink,
    /// Whether a file of it is too large, so that nothing can be done with it any more.
    spoiled: bool,
}

impl Archive {
    #[verifier::type_invariant]
    spec fn knows_its_state(self) -> bool {
        self.spoiled == !zip_accepts(zip_entries(self.sink))
    }
}

impl View for Archive {
    type V = Seq<Entry>;

    closed spec fn view(&self) -> Seq<Entry> {
        zip_entries(self.sink)
    }
}

/// An archive whose last entry is a file that waits for its contents.
pub struct OpenFile {
    sink: ZipSink,
}

impl View for OpenFile {
    type V = Seq<Entry>;

    closed spec fn view(&self) -> Seq<Entry> {
        zip_entries(self.sink)
    }
}

/// Whether the last entry of an archive is a file that waits for its contents.
spec fn awaits_contents(entries: Seq<Entry>) -> bool {
    entries.len() > 0 && entries.last().1 == Some(Seq::<u8>::empty())
}

impl OpenFile {
    #[verifier::type_invariant]
    spec fn is_open(self) -> bool {
        awaits_contents(zip_entries(self.sink)) && zip_accepts(zip_entries(self.sink))
    }
}

/// What an archive wants after an entry was visited.
pub enum Visited {
    /// The contents of the file.
    Contents(OpenFile),
    /// The next entry.
    Next(Archive),
}

/// The entries of an archive after something was visited: a file is added, empty for
/// now, and so is all else that has a name, as a directory.
pub open spec fn entries_after(before: Seq<Entry>, name: Seq<char>, is_file: bool) -> Seq<Entry> {
    if is_file {
        before.push((name, Some(Seq::empty())))
    } else if name.len() > 0 {
        before.push((directory_name(name), None))
    } else {
        before
    }
}

/// The entries of an archive after the contents of its last file were read: they
/// are filled in, or the file stays empty if it could not be read.
pub open spec fn entries_filled(before: Seq<Entry>, contents: Option<Seq<u8>>) -> Seq<Entry> {
    match contents {
        Some(contents) => before.drop_last().push((before.last().0, Some(contents))),
        None => before,
    }
}

/// The entries of an archive after a visit, or why there are none: `root` is the
/// directory's own name, `relative` the path below it.
pub open spec fn visit_result(
    before: Seq<Entry>,
    root: Option<Seq<char>>,
    relative: Option<Seq<char>>,
    is_file: bool,
) -> Result<Seq<Entry>, ArchiveError> {
    match (root, relative) {
        (None, _) => Err(ArchiveError::NoFileName),
        (Some(_), None) => Err(ArchiveError::NotAChild),
        (Some(root), Some(relative)) => {
            let name = joined(root, relative);
            if zip_accepts(before) || (!is_file && name.len() == 0) {
                Ok(entries_after(before, name, is_file))
            } else if is_file {
                Err(ArchiveError::AddFile)
            } else {
                Err(ArchiveError::AddDirectory)
            }
        },
    }
}

/// The entries that a visit leaves an archive with.
pub open spec fn visited_entries(visited: Result<Visited, ArchiveError>) -> Result<
    Seq<Entry>,
    ArchiveError,
> {
    match visited {
        Ok(Visited::Contents(file)) => Ok(file@),
        Ok(Visited::Next(archive)) => Ok(archive@),
        Err(error) => Err(error),
    }
}

/// The entries of an archive after its last file was filled in, or why it was not.
pub open spec fn fill_result(before: Seq<Entry>, contents: Option<Seq<u8>>) -> Result<
    Seq<Entry>,
    ArchiveError,
> {
    match contents {
        Some(bytes) => if bytes.len() <= FILE_LIMIT {
            Ok(entries_filled(before, contents))
        } else {
            Err(ArchiveError::WriteFile)
        },
        None => Ok(before),
    }
}

/// The document that an archive is finished as, or why there is none.
pub open spec fn finish_result(entries: Seq<Entry>) -> Result<Seq<u8>, ArchiveError> {
    if zip_accepts(entries) {
        Ok(zip_document(entries))
    } else {
        Err(ArchiveError::Finish)
    }
}

/// The bytes of an optional slice.
pub open spec fn bytes_of(bytes: Option<&[u8]>) -> Option<Seq<u8>> {
    match bytes {
        Some(bytes) => Some(bytes@),
        None => None,
    }
}

impl Archive {
    /// An archive without entries.
    pub fn new() -> (archive: Archive)
        ensures
            archive@ == Seq::<Entry>::empty(),
    {
        Archive { sink: zip_new(), spoiled: false }
    }

    /// Adds what was visited: `root` is the directory's own name, `relative` the
    /// path below it. The archive is given up on an error.
    pub fn visit(self, root: Option<&str>, relative: Option<&str>, is_file: bool) -> (visited:
        Result<Visited, ArchiveError>)
        ensures
            visited_entries(visited) == visit_result(
                self@,
                text_of(root),
                text_of(relative),
                is_file,
            ),
            match (root, relative) {
                (None, _) => visited == Err::<Visited, ArchiveError>(ArchiveError::NoFileName),
                (Some(_), None) => visited == Err::<Visited, ArchiveError>(ArchiveError::NotAChild),
                (Some(root), Some(relative)) => {
                    let name = joined(root@, relative@);
                    let after = entries_after(self@, name, is_file);
                    if is_file {
                        if zip_accepts(self@) {
                            visited matches Ok(Visited::Contents(file)) && file@ == after
                        } else {
                            visited == Err::<Visited, ArchiveError>(ArchiveError::AddFile)
                        }
                    } else if name.len() == 0 || zip_accepts(self@) {
                        visited matches Ok(Visited::Next(archive)) && archive@ == after
                    } else {
                        visited == Err::<Visited, ArchiveError>(ArchiveError::AddDirectory)
                    }
                },
            },
    {
        let root = match root {
            Some(root) => root,
            None => {
                return Err(ArchiveError::NoFileName);
            },
        };
        let relative = match relative {
            Some(relative) => relative,
            None => {
                return Err(ArchiveError::NotAChild);
            },
        };
        let name = join(root, relative);
        proof {
            use_type_invariant(&self);
        }
        if is_file {
            if self.spoiled {
                return Err(ArchiveError::AddFile);
            }
            match zip_start_file(self.sink, name.as_str()) {
                Ok(sink) => Ok(Visited::Contents(OpenFile { sink })),
                Err(_) => Err(ArchiveError::AddFile),
            }
        } else if !name.as_str().is_empty() {
            if self.spoiled {
                return Err(ArchiveError::AddDirectory);
            }
            match zip_add_directory(self.sink, name.as_str()) {
                Ok(sink) => Ok(Visited::Next(Archive { sink, spoiled: false })),
                Err(_) => Err(ArchiveError::AddDirectory),
            }
        } else {
            Ok(Visited::Next(self))
        }
    }

    /// The finished archive.
    pub fn finish(self) -> (document: Result<Vec<u8>, ArchiveError>)
        ensures
            match finish_result(self@) {
                Ok(bytes) => document matches Ok(written) && written@ == bytes,
                Err(error) => document == Err::<Vec<u8>, ArchiveError>(error),
            },
            if zip_accepts(self@) {
                document matches Ok(bytes) && bytes@ == zip_document(self@)
            } else {
                document == Err::<Vec<u8>, ArchiveError>(ArchiveError::Finish)
            },
    {
        proof {
            use_type_invariant(&self);
        }
        if self.spoiled {
            return Err(ArchiveError::Finish);
        }
        match zip_finish(self.sink) {
            Ok(bytes) => Ok(bytes),
            Err(_) => Err(ArchiveError::Finish),
        }
    }
}

impl OpenFile {
    /// Fills in the contents; nothing, if the file could not be read. Contents over the
    /// limit are reported, and the archive goes on, but can take nothing more.
    pub fn contents(self, contents: Option<&[u8]>) -> (filled: (Archive, Result<(), ArchiveError>))
        ensures
            match fill_result(self@, bytes_of(contents)) {
                Ok(after) => filled.1 == Ok::<(), ArchiveError>(()) && filled.0@ == after,
                Err(error) => filled.1 == Err::<(), ArchiveError>(error),
            },
            match contents {
                Some(bytes) => if bytes@.len() <= FILE_LIMIT {
                    &&& filled.1 == Ok::<(), ArchiveError>(())
                    &&& filled.0@ == entries_filled(self@, Some(bytes@))
                } else {
                    &&& filled.1 == Err::<(), ArchiveError>(ArchiveError::WriteFile)
                    &&& overfilled(self@, bytes@, filled.0@)
                },
                None => filled.1 == Ok::<(), ArchiveError>(()) && filled.0@ == entries_filled(
                    self@,
                    None,
                ),
            },
    {
        proof {
            use_type_invariant(&self);
        }
        let mut sink = self.sink;
        match contents {
            Some(contents) => {
                let len: u64 = contents.len() as u64;
                let taken = len <= SAFE_SIZE || (len <= FILE_LIMIT && zip_fits(contents));
                match zip_write(&mut sink, contents) {
                    Ok(_) => {
                        proof {
                            lemma_filled_is_accepted(zip_entries(self.sink), contents@);
                        }
                        (Archive { sink, spoiled: !taken }, Ok(()))
                    },
                    Err(_) => {
                        proof {
                            law_too_large_a_file_spoils_the_archive(
                                zip_entries(self.sink),
                                contents@,
                                zip_entries(sink),
                            );
                        }
                        (Archive { sink, spoiled: true }, Err(ArchiveError::WriteFile))
                    },
                }
            },
            None => (Archive { sink, spoiled: false }, Ok(())),
        }
    }
}

/// Whether an archive can be gone on with after its last file was filled in depends on
/// that file alone.
proof fn lemma_filled_is_accepted(before: Seq<Entry>, contents: Seq<u8>)
    requires
        before.len() > 0,
        zip_accepts(before),
    ensures
        zip_accepts(entries_filled(before, Some(contents))) <==> zip_takes(contents),
{
    let after = entries_filled(before, Some(contents));
    let last = before.len() - 1;
    assert(after[last].1 == Some(contents));
    assert(forall|i: int| 0 <= i < last ==> #[trigger] after[i] == before[i]);
}

/// A file with contents over the limit spoils its archive: nothing more can be added,
/// and it cannot be finished.
pub proof fn law_too_large_a_file_spoils_the_archive(
    before: Seq<Entry>,
    contents: Seq<u8>,
    after: Seq<Entry>,
)
    requires
        before.len() > 0,
        overfilled(before, contents, after),
    ensures
        !zip_accepts(after),
{
    let last = after[after.len() - 1];
    assert(last.1 is Some);
}

/// Something in a directory: the path below it, and what was found there.
pub struct Found {
    pub relative: Seq<char>,
    /// For a file its contents, or nothing if it could not be read; nothing for all
    /// else.
    pub file: Option<Option<Seq<u8>>>,
}

/// What becomes of something in a directory: a file with its contents, empty if it
/// could not be read; a directory for all else.
pub open spec fn entry_of(root: Seq<char>, found: Found) -> Entry {
    let name = joined(root, found.relative);
    match found.file {
        Some(Some(contents)) => (name, Some(contents)),
        Some(None) => (name, Some(Seq::empty())),
        None => (directory_name(name), None),
    }
}

/// The entries of an archive after all that was found was visited, in order.
pub open spec fn entries_after_all(before: Seq<Entry>, root: Seq<char>, found: Seq<Found>) -> Seq<
    Entry,
>
    decreases found.len(),
{
    if found.len() == 0 {
        before
    } else {
        let name = joined(root, found[0].relative);
        let added = entries_after(before, name, found[0].file is Some);
        let filled = match found[0].file {
            Some(contents) => entries_filled(added, contents),
            None => added,
        };
        entries_after_all(filled, root, found.drop_first())
    }
}

proof fn lemma_entries_after_all(before: Seq<Entry>, root: Seq<char>, found: Seq<Found>)
    requires
        root.len() > 0,
    ensures
        entries_after_all(before, root, found) == before + found.map_values(
            |item: Found| entry_of(root, item),
        ),
    decreases found.len(),
{
    let entries = found.map_values(|item: Found| entry_of(root, item));
    if found.len() == 0 {
        assert(before + entries =~= before);
    } else {
        let rest = found.drop_first();
        let name = joined(root, found[0].relative);
        let added = entries_after(before, name, found[0].file is Some);
        let filled = match found[0].file {
            Some(contents) => entries_filled(added, contents),
            None => added,
        };
        assert(name.len() > 0);
        assert(filled =~= before.push(entry_of(root, found[0])));
        lemma_entries_after_all(filled, root, rest);
        assert(before + entries =~= filled + rest.map_values(|item: Found| entry_of(root, item)));
    }
}

/// A directory's archive holds one entry for each thing that was found in it, in the
/// order of the visit, with the contents of every file that could be read.
pub proof fn law_archive_holds_what_was_found(root: Seq<char>, found: Seq<Found>)
    requires
        root.len() > 0,
    ensures
        entries_after_all(Seq::empty(), root, found) == found.map_values(
            |item: Found| entry_of(root, item),
        ),
{
    lemma_entries_after_all(Seq::empty(), root, found);
    assert(Seq::<Entry>::empty() + found.map_values(|item: Found| entry_of(root, item))
        =~= found.map_values(|item: Found| entry_of(root, item)));
}

/// What archiving a directory comes to, from the entries before on: each thing that was
/// found is visited and, if it is a file, filled in; then the archive is finished. On
/// success, the entries that it then has.
pub open spec fn archived(before: Seq<Entry>, root: Seq<char>, found: Seq<Found>) -> Result<
    Seq<Entry>,
    ArchiveError,
>
    decreases found.len(),
{
    if found.len() == 0 {
        match finish_result(before) {
            Ok(_) => Ok(before),
            Err(error) => Err(error),
        }
    } else {
        let is_file = found[0].file is Some;
        match visit_result(before, Some(root), Some(found[0].relative), is_file) {
            Ok(added) => {
                let filled = match found[0].file {
                    Some(contents) => entries_filled(added, contents),
                    None => added,
                };
                archived(filled, root, found.drop_first())
            },
            Err(error) => Err(error),
        }
    }
}

/// Whether something in a directory can be in an archive: all can but a file that is
/// too large.
pub open spec fn can_be_archived(found: Found) -> bool {
    found.file matches Some(Some(contents)) ==> zip_takes(contents)
}

proof fn lemma_archived(before: Seq<Entry>, root: Seq<char>, found: Seq<Found>)
    requires
        root.len() > 0,
    ensures
        archived(before, root, found) is Ok <==> zip_accepts(before) && forall|i: int|
            0 <= i < found.len() ==> can_be_archived(#[trigger] found[i]),
        archived(before, root, found) matches Ok(entries) ==> entries == entries_after_all(
            before,
            root,
            found,
        ),
    decreases found.len(),
{
    if found.len() > 0 {
        let rest = found.drop_first();
        let entry = entry_of(root, found[0]);
        let name = joined(root, found[0].relative);
        let added = entries_after(before, name, found[0].file is Some);
        let filled = match found[0].file {
            Some(contents) => entries_filled(added, contents),
            None => added,
        };
        assert(name.len() > 0);
        assert(filled =~= before.push(entry));
        assert(zip_accepts(filled) <==> zip_accepts(before) && can_be_archived(found[0])) by {
            assert(forall|i: int| 0 <= i < before.len() ==> filled[i] == #[trigger] before[i]);
            assert(filled[before.len() as int] == entry);
            if zip_accepts(before) && can_be_archived(found[0]) {
                assert forall|i: int| 0 <= i < filled.len() implies ((
                #[trigger] filled[i]).1 matches Some(contents) ==> zip_takes(contents)) by {
                    if i < before.len() {
                        assert(filled[i] == before[i]);
                    }
                }
            }
        }
        lemma_archived(filled, root, rest);
        assert(forall|i: int| 0 <= i < rest.len() ==> #[trigger] rest[i] == found[i + 1]);
        assert(forall|i: int| 0 < i < found.len() ==> #[trigger] found[i] == rest[i - 1]);
    }
}

/// Archiving a directory succeeds if and only if each of its files that could be read can
/// be in an archive; the archive then holds exactly one entry for each thing that was
/// found, in the order of the visit. A file that could not be read fails nothing.
pub proof fn law_archive_is_made_unless_a_file_is_too_large(root: Seq<char>, found: Seq<Found>)
    requires
        root.len() > 0,
    ensures
        archived(Seq::empty(), root, found) is Ok <==> forall|i: int|
            0 <= i < found.len() ==> can_be_archived(#[trigger] found[i]),
        archived(Seq::empty(), root, found) matches Ok(entries) ==> entries == found.map_values(
            |item: Found| entry_of(root, item),
        ),
{
    lemma_archived(Seq::empty(), root, found);
    law_archive_holds_what_was_found(root, found);
}

/// A directory whose files are of a safe size, if they could be read at all, is archived
/// with all that was found in it.
pub proof fn law_readable_directory_is_archived(root: Seq<char>, found: Seq<Found>)
    requires
        root.len() > 0,
        forall|i: int|
            0 <= i < found.len() ==> ((#[trigger] found[i]).file matches Some(Some(contents))
                ==> contents.len() <= SAFE_SIZE),
    ensures
        archived(Seq::empty(), root, found) == Ok::<Seq<Entry>, ArchiveError>(
            found.map_values(|item: Found| entry_of(root, item)),
        ),
{
    assert(forall|i: int| 0 <= i < found.len() ==> can_be_archived(#[trigger] found[i]));
    law_archive_is_made_unless_a_file_is_too_large(root, found);
}

/// Whether a path stays below the directory that it is joined to.
pub open spec fn is_relative(path: Seq<char>) -> bool {
    path.len() > 0 ==> path[0] != '/'
}

/// All entries of a directory's archive lie below the directory's own name.
pub proof fn law_entries_lie_below_the_root(root: Seq<char>, found: Found)
    requires
        root.len() > 0,
        root.last() != '/',
        is_relative(found.relative),
    ensures
        (root + "/"@).is_prefix_of(entry_of(root, found).0),
{
    reveal_strlit("/");
    let name = joined(root, found.relative);
    assert(name.take((root + "/"@).len() as int) =~= root + "/"@);
}

/// Different files of a directory have different names in its archive.
pub proof fn law_files_keep_their_names_apart(root: Seq<char>, left: Found, right: Found)
    requires
        is_relative(left.relative),
        is_relative(right.relative),
        left.file is Some,
        right.file is Some,
        entry_of(root, left).0 == entry_of(root, right).0,
    ensures
        left.relative == right.relative,
{
    let name = entry_of(root, left).0;
    let n = name.len() as int;
    assert(left.relative =~= name.skip(n - left.relative.len()));
    assert(right.relative =~= name.skip(n - right.relative.len()));
}

/// How paths are joined: a path that is not absolute comes behind the other one, with one
/// slash between them; an absolute one takes its place.
pub proof fn law_path_is_joined_with_a_slash(base: Seq<char>, path: Seq<char>)
    ensures
        is_relative(path) && base.len() > 0 && base.last() != '/' ==> joined(base, path) == base
            + seq!['/'] + path,
        is_relative(path) && base.len() > 0 && base.last() == '/' ==> joined(base, path) == base
            + path,
        is_relative(path) ==> joined(Seq::empty(), path) == path,
        joined(base, seq!['/'] + path) == seq!['/'] + path,
{
    reveal_strlit("/");
    assert("/"@ =~= seq!['/']);
    assert(Seq::<char>::empty() + path =~= path);
}

/// The name of a directory in an archive is its path, with a slash behind it unless it
/// already ends in a slash or a backslash.
pub proof fn law_directory_ends_in_a_slash(name: Seq<char>, c: char)
    ensures
        directory_name(name + seq!['/']) == name + seq!['/'],
        c == '\\' ==> directory_name(name.push(c)) == name.push(c),
        c != '/' && c != '\\' ==> directory_name(name.push(c)) == name.push(c) + seq!['/'],
{
    reveal_strlit("/");
    assert("/"@ =~= seq!['/']);
    assert(name.push(c).last() == c);
    assert((name + seq!['/']).last() == '/');
}

/// What a directory's archive holds, thing by thing: each lies at its path below the
/// directory's own name. A file that was read has its contents, byte for byte; one that
/// was not is empty; all else is a directory.
pub proof fn law_archive_holds_each_thing_as_it_is(
    root: Seq<char>,
    found: Seq<Found>,
    entries: Seq<Entry>,
    i: int,
)
    requires
        root.len() > 0,
        root.last() != '/',
        archived(Seq::empty(), root, found) == Ok::<Seq<Entry>, ArchiveError>(entries),
        0 <= i < found.len(),
        is_relative(found[i].relative),
    ensures
        entries.len() == found.len(),
        found[i].file matches Some(Some(contents)) ==> entries[i] == (
            root + seq!['/'] + found[i].relative,
            Some(contents),
        ),
        found[i].file matches Some(None) ==> entries[i] == (
            root + seq!['/'] + found[i].relative,
            Some(Seq::<u8>::empty()),
        ),
        found[i].file is None ==> entries[i] == (
            directory_name(root + seq!['/'] + found[i].relative),
            None::<Seq<u8>>,
        ),
{
    law_archive_is_made_unless_a_file_is_too_large(root, found);
    law_path_is_joined_with_a_slash(root, found[i].relative);
    assert(entries[i] == entry_of(root, found[i]));
}

/// A file of up to 128 MiB can always be in an archive, and one of more than `u32::MAX`
/// bytes never.
pub proof fn law_size_decides_what_can_be_archived(contents: Seq<u8>)
    ensures
        contents.len() <= 0x800_0000 ==> zip_takes(contents),
        contents.len() > 0xffff_ffff ==> !zip_takes(contents),
{
}

/// What a visit adds: a file, empty for now, or a directory; what was there before stays
/// as it was. Filling in a file changes nothing but its contents.
pub proof fn law_visit_adds_one_entry(
    before: Seq<Entry>,
    name: Seq<char>,
    is_file: bool,
    contents: Option<Seq<u8>>,
)
    requires
        name.len() > 0,
    ensures
        ({
            let after = entries_after(before, name, is_file);
            &&& after.drop_last() == before
            &&& after.last() == if is_file {
                (name, Some(Seq::<u8>::empty()))
            } else {
                (directory_name(name), None)
            }
            &&& is_file ==> entries_filled(after, contents) == before.push(
                (name, Some(if contents is Some {
                    contents->0
                } else {
                    Seq::empty()
                })),
            )
        }),
{
    let after = entries_after(before, name, is_file);
    assert(after.drop_last() =~= before);
    if is_file {
        assert(entries_filled(after, contents) =~= before.push(
            (name, Some(if contents is Some {
                contents->0
            } else {
                Seq::empty()
            })),
        ));
    }
}

/// What a visit comes to: a thing whose place in the directory is not known is refused;
/// every other one is added at its path below the directory's own name, as long as no file
/// before was too large.
pub proof fn law_visit_adds_what_was_found(
    before: Seq<Entry>,
    root: Seq<char>,
    relative: Seq<char>,
    is_file: bool,
)
    requires
        zip_accepts(before),
        root.len() > 0,
        root.last() != '/',
        is_relative(relative),
    ensures
        visit_result(before, None, Some(relative), is_file) == Err::<Seq<Entry>, ArchiveError>(
            ArchiveError::NoFileName,
        ),
        visit_result(before, None, None, is_file) == Err::<Seq<Entry>, ArchiveError>(
            ArchiveError::NoFileName,
        ),
        visit_result(before, Some(root), None, is_file) == Err::<Seq<Entry>, ArchiveError>(
            ArchiveError::NotAChild,
        ),
        visit_result(before, Some(root), Some(relative), is_file) == Ok::<Seq<Entry>, ArchiveError>(
            before.push(
                if is_file {
                    (root + seq!['/'] + relative, Some(Seq::<u8>::empty()))
                } else {
                    (directory_name(root + seq!['/'] + relative), None)
                },
            ),
        ),
{
    law_path_is_joined_with_a_slash(root, relative);
}

/// What filling in a file comes to: it has all of its contents, up to the limit; it stays
/// empty if it could not be read; and contents over the limit are refused.
pub proof fn law_file_is_filled_with_its_contents(
    before: Seq<Entry>,
    name: Seq<char>,
    contents: Seq<u8>,
)
    ensures
        ({
            let waiting = before.push((name, Some(Seq::<u8>::empty())));
            &&& contents.len() <= 0xffff_ffff ==> fill_result(waiting, Some(contents)) == Ok::<
                Seq<Entry>,
                ArchiveError,
            >(before.push((name, Some(contents))))
            &&& contents.len() > 0xffff_ffff ==> fill_result(waiting, Some(contents)) == Err::<
                Seq<Entry>,
                ArchiveError,
            >(ArchiveError::WriteFile)
            &&& fill_result(waiting, None) == Ok::<Seq<Entry>, ArchiveError>(waiting)
        }),
{
    let waiting = before.push((name, Some(Seq::<u8>::empty())));
    assert(waiting.drop_last() =~= before);
    assert(entries_filled(waiting, Some(contents)) =~= before.push((name, Some(contents))));
}

/// An archive is finished as the document of all of its entries if and only if each file
/// in it can be in an archive.
pub proof fn law_archive_is_finished_with_all_entries(entries: Seq<Entry>)
    ensures
        finish_result(entries) is Ok <==> forall|i: int|
            0 <= i < entries.len() ==> ((#[trigger] entries[i]).1 matches Some(contents)
                ==> zip_takes(contents)),
        finish_result(entries) matches Ok(bytes) ==> bytes == zip_document(entries),
{
}

} // verus!
