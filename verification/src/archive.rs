//! Packing a hat into one archive file with the crate `zip`.
use vstd::prelude::*;
use crate::path_utils::{path_text, HatPath};
use crate::text::same_text;

verus! {

/// An archive that is being written. It holds the writer of the crate `zip`
/// over a file in memory; nothing of its inside is known here. The calls
/// that were made on it go by the name [`archive_calls`], and the entries
/// that it has taken by the name [`archive_entries`].
#[verifier::external_body]
pub struct Archive {
    writer: zip::ZipWriter<std::io::Cursor<Vec<u8>>>,
}

/// The error of the crate `zip`.
#[verifier::external_type_specification]
#[verifier::external_body]
pub struct ExZipError(zip::result::ZipError);

/// The error of the standard library for reading and writing.
#[verifier::external_type_specification]
#[verifier::external_body]
pub struct ExIoError(std::io::Error);

/// The entries that an archive has taken, in order: of each its name and
/// the bytes written to it so far.
pub uninterp spec fn archive_entries(archive: Archive) -> Seq<(Seq<char>, Seq<u8>)>;

/// A call on an archive.
pub enum ArchiveCall {
    /// Adding a folder of this name.
    Folder(Seq<char>),
    /// Starting a file of this name.
    File(Seq<char>),
    /// Writing these bytes.
    Bytes(Seq<u8>),
}

/// The calls that were made on an archive since it was new, in order,
/// whether the crate `zip` accepted them or not. The writer reads nothing
/// but what it was handed, so what it holds, and what it answers next,
/// depends on these alone.
pub uninterp spec fn archive_calls(archive: Archive) -> Seq<ArchiveCall>;

/// Whether `ZipWriter::add_directory` accepts a folder of this name, with
/// the default options, on an archive on which these calls were made.
pub uninterp spec fn folder_accepted(calls: Seq<ArchiveCall>, name: Seq<char>) -> bool;

/// Whether `ZipWriter::start_file` accepts a file of this name, with the
/// default options, on an archive on which these calls were made.
pub uninterp spec fn file_accepted(calls: Seq<ArchiveCall>, name: Seq<char>) -> bool;

/// Whether `Write::write_all` writes these bytes to an archive on which
/// these calls were made.
pub uninterp spec fn bytes_accepted(calls: Seq<ArchiveCall>, bytes: Seq<u8>) -> bool;

/// The bytes that closing an archive gives on which these calls were made:
/// what `ZipWriter::finish` leaves in the file in memory. There are none
/// where the crate `zip` fails to close the archive.
pub uninterp spec fn closed_bytes(calls: Seq<ArchiveCall>) -> Option<Seq<u8>>;

/// Whether the crate `zip` accepts `call` on an archive on which `calls`
/// were made.
pub open spec fn call_accepted(calls: Seq<ArchiveCall>, call: ArchiveCall) -> bool {
    match call {
        ArchiveCall::Folder(name) => folder_accepted(calls, name),
        ArchiveCall::File(name) => file_accepted(calls, name),
        ArchiveCall::Bytes(bytes) => bytes_accepted(calls, bytes),
    }
}

/// Whether the call at place `at` of `plan` is accepted when the calls of
/// `plan` are made in order on an archive on which `calls` were made.
pub open spec fn accepted_at(calls: Seq<ArchiveCall>, plan: Seq<ArchiveCall>, at: int) -> bool {
    call_accepted(calls + plan.take(at), plan[at])
}

/// Whether each call of `plan` is accepted when they are made in order on
/// an archive on which `calls` were made.
pub open spec fn all_accepted(calls: Seq<ArchiveCall>, plan: Seq<ArchiveCall>) -> bool {
    forall|at: int| 0 <= at < plan.len() ==> accepted_at(calls, plan, at)
}

/// Whether the call at place `at` of `plan` is the first that is refused
/// when the calls of `plan` are made in order on an archive on which
/// `calls` were made.
pub open spec fn is_first_refused(
    calls: Seq<ArchiveCall>,
    plan: Seq<ArchiveCall>,
    at: int,
) -> bool {
    &&& 0 <= at < plan.len()
    &&& !accepted_at(calls, plan, at)
    &&& forall|k: int| 0 <= k < at ==> accepted_at(calls, plan, k)
}

/// The name under which a folder stands in an archive: the name of the
/// folder, with a slash after it unless it ends in a slash or a backslash.
pub open spec fn folder_entry_name(name: Seq<char>) -> Seq<char> {
    if name.len() > 0 && (name.last() == '/' || name.last() == '\\') {
        name
    } else {
        name + seq!['/']
    }
}

/// `ZipWriter::new` over an empty file in memory: an archive on which no
/// call was made, and which has taken no entry.
#[verifier::external_body]
fn zip_new() -> (archive: Archive)
    ensures
        archive_calls(archive) == Seq::<ArchiveCall>::empty(),
        archive_entries(archive) == Seq::<(Seq<char>, Seq<u8>)>::empty(),
{
    Archive { writer: zip::ZipWriter::new(std::io::Cursor::new(Vec::new())) }
}

/// `ZipWriter::add_directory` with the default options. It succeeds where
/// the crate accepts the folder, which goes by a name. Where it succeeds,
/// the archive has taken one more entry, without bytes, under the name of
/// the folder. Nothing is claimed of the entries of an archive in which it
/// failed.
#[verifier::external_body]
fn zip_add_directory(archive: &mut Archive, name: &str) -> (added: Result<
    (),
    zip::result::ZipError,
>)
    ensures
        archive_calls(*final(archive)) == archive_calls(*old(archive)).push(
            ArchiveCall::Folder(name@),
        ),
        added is Ok <==> folder_accepted(archive_calls(*old(archive)), name@),
        added is Ok ==> archive_entries(*final(archive)) == archive_entries(*old(archive)).push(
            (folder_entry_name(name@), Seq::<u8>::empty()),
        ),
{
    archive.writer.add_directory(name, zip::write::SimpleFileOptions::default())
}

/// `ZipWriter::start_file` with the default options. It succeeds where the
/// crate accepts the file, which goes by a name. Where it succeeds, the
/// archive has taken one more entry under the given name, without bytes so
/// far. Nothing is claimed of the entries of an archive in which it failed.
#[verifier::external_body]
fn zip_start_file(archive: &mut Archive, name: &str) -> (started: Result<(), zip::result::ZipError>)
    ensures
        archive_calls(*final(archive)) == archive_calls(*old(archive)).push(
            ArchiveCall::File(name@),
        ),
        started is Ok <==> file_accepted(archive_calls(*old(archive)), name@),
        started is Ok ==> archive_entries(*final(archive)) == archive_entries(*old(archive)).push(
            (name@, Seq::<u8>::empty()),
        ),
{
    archive.writer.start_file(name, zip::write::SimpleFileOptions::default())
}

/// `Write::write_all` on the writer. It succeeds where the crate takes the
/// bytes, which goes by a name. Without bytes it leaves the entries as they
/// are. With bytes it succeeds only while a file is started, and then the
/// bytes stand after those of the last entry. Nothing is claimed of the
/// entries of an archive in which it failed.
#[verifier::external_body]
fn zip_write_all(archive: &mut Archive, bytes: &[u8]) -> (written: Result<(), std::io::Error>)
    ensures
        archive_calls(*final(archive)) == archive_calls(*old(archive)).push(
            ArchiveCall::Bytes(bytes@),
        ),
        written is Ok <==> bytes_accepted(archive_calls(*old(archive)), bytes@),
        written is Ok && bytes@.len() == 0 ==> archive_entries(*final(archive)) == archive_entries(
            *old(archive),
        ),
        written is Ok && bytes@.len() > 0 ==> archive_entries(*old(archive)).len() > 0
            && archive_entries(*final(archive)) == archive_entries(*old(archive)).drop_last().push(
            (
                archive_entries(*old(archive)).last().0,
                archive_entries(*old(archive)).last().1 + bytes@,
            ),
        ),
{
    std::io::Write::write_all(&mut archive.writer, bytes)
}

/// `ZipWriter::finish`, and the bytes of the file in memory that it hands
/// back. Closing writes down what the archive has taken and reads nothing
/// but the archive, so the bytes depend on the calls that were made on it.
/// Nothing is claimed about what they are.
#[verifier::external_body]
fn zip_finish(archive: Archive) -> (bytes: Result<Vec<u8>, zip::result::ZipError>)
    ensures
        bytes is Ok <==> closed_bytes(archive_calls(archive)) is Some,
        bytes matches Ok(b) ==> Some(b@) == closed_bytes(archive_calls(archive)),
{
    archive.writer.finish().map(|file| file.into_inner())
}

/// Why an archive could not be written.
#[derive(Debug)]
pub enum ArchiveError {
    /// There is not one encoded image for each path.
    ImageCountMismatch,
    /// The crate `zip` refused an entry.
    Zip(zip::result::ZipError),
    /// The bytes of an entry could not be written.
    Io(std::io::Error),
}

/// The entries of the archive of a hat: the folder `images`, then each
/// image under its path, and last the stored form of the hat as
/// `data.json`.
pub open spec fn hat_entries(
    images: Seq<Seq<char>>,
    contents: Seq<Seq<u8>>,
    data: Seq<u8>,
) -> Seq<(Seq<char>, Seq<u8>)> {
    seq![("images/"@, Seq::<u8>::empty())] + Seq::new(
        images.len(),
        |i: int| (images[i], contents[i]),
    ) + seq![("data.json"@, data)]
}

/// The calls that put a hat into an archive: the folder `images`, then for
/// each image a file under its path and its bytes, and last the file
/// `data.json` and the stored form of the hat.
pub open spec fn hat_calls(
    images: Seq<Seq<char>>,
    contents: Seq<Seq<u8>>,
    data: Seq<u8>,
) -> Seq<ArchiveCall> {
    seq![ArchiveCall::Folder("images"@)] + Seq::new(
        2 * images.len(),
        |k: int|
            if k % 2 == 0 {
                ArchiveCall::File(images[k / 2])
            } else {
                ArchiveCall::Bytes(contents[k / 2])
            },
    ) + seq![ArchiveCall::File("data.json"@), ArchiveCall::Bytes(data)]
}

/// Whether `error` is the error that the refusal of `call` gives: that of
/// the crate `zip` for a folder or a file, that of writing for bytes.
pub open spec fn is_refusal_of(error: ArchiveError, call: ArchiveCall) -> bool {
    match call {
        ArchiveCall::Folder(_) => error is Zip,
        ArchiveCall::File(_) => error is Zip,
        ArchiveCall::Bytes(_) => error is Io,
    }
}

/// The texts of the paths, in order.
pub open spec fn path_texts(paths: Seq<HatPath>) -> Seq<Seq<char>> {
    Seq::new(paths.len(), |i: int| path_text(paths[i]@))
}

/// The bytes of the vectors, in order.
pub open spec fn byte_views(contents: Seq<Vec<u8>>) -> Seq<Seq<u8>> {
    Seq::new(contents.len(), |i: int| contents[i]@)
}

impl Archive {
    /// An archive on which no call was made, and which has taken no entry.
    pub fn new() -> (archive: Archive)
        ensures
            archive_calls(archive) == Seq::<ArchiveCall>::empty(),
            archive_entries(archive) == Seq::<(Seq<char>, Seq<u8>)>::empty(),
    {
        zip_new()
    }

    /// Puts a hat into the archive: the folder `images`, then each encoded
    /// image under its path, and last `data` as `data.json`. There must be
    /// one encoded image for each path; without that the archive stays as
    /// it was. It succeeds where the crate `zip` accepts each of these calls
    /// in turn, and stops at the first that is refused, with the error of
    /// that call.
    pub fn add_hat(&mut self, images: &Vec<HatPath>, encoded: &Vec<Vec<u8>>, data: &[u8]) -> (added:
        Result<(), ArchiveError>)
        ensures
            added is Ok <==> images@.len() == encoded@.len() && all_accepted(
                archive_calls(*old(self)),
                hat_calls(path_texts(images@), byte_views(encoded@), data@),
            ),
            images@.len() != encoded@.len() ==> (added matches Err(
                ArchiveError::ImageCountMismatch,
            )) && *final(self) == *old(self),
            images@.len() == encoded@.len() ==> (added matches Err(e) ==> exists|at: int|
                is_first_refused(
                    archive_calls(*old(self)),
                    hat_calls(path_texts(images@), byte_views(encoded@), data@),
                    at,
                ) && is_refusal_of(
                    e,
                    #[trigger] hat_calls(path_texts(images@), byte_views(encoded@), data@)[at],
                )),
            added is Ok ==> archive_calls(*final(self)) == archive_calls(*old(self)) + hat_calls(
                path_texts(images@),
                byte_views(encoded@),
                data@,
            ),
            added is Ok ==> archive_entries(*final(self)) == archive_entries(*old(self))
                + hat_entries(path_texts(images@), byte_views(encoded@), data@),
    {
        if images.len() != encoded.len() {
            return Err(ArchiveError::ImageCountMismatch);
        }
        let ghost before = archive_entries(*self);
        let ghost calls = archive_calls(*self);
        let ghost plan = hat_calls(path_texts(images@), byte_views(encoded@), data@);
        proof {
            reveal_strlit("images");
            reveal_strlit("images/");
            assert(folder_entry_name("images"@) =~= "images/"@);
            assert(calls + plan.take(0) =~= calls);
        }
        if let Err(e) = zip_add_directory(self, "images") {
            proof {
                assert(is_first_refused(calls, plan, 0));
            }
            return Err(ArchiveError::Zip(e));
        }
        proof {
            assert(calls + plan.take(1) =~= calls.push(plan[0]));
        }
        let ghost head = before.push(("images/"@, Seq::<u8>::empty()));
        let mut i: usize = 0;
        while i < images.len()
            invariant
                i <= images@.len() == encoded@.len(),
                plan == hat_calls(path_texts(images@), byte_views(encoded@), data@),
                calls == archive_calls(*old(self)),
                archive_calls(*self) == calls + plan.take(1 + 2 * i),
                forall|k: int| 0 <= k < 1 + 2 * i ==> accepted_at(calls, plan, k),
                archive_entries(*self) == head + Seq::new(
                    i as nat,
                    |k: int| (path_texts(images@)[k], byte_views(encoded@)[k]),
                ),
            decreases images.len() - i,
        {
            let ghost taken = archive_entries(*self);
            let ghost at = 1 + 2 * i;
            let name = images[i].to_text();
            proof {
                assert(plan[at] == ArchiveCall::File(name@));
                assert(plan[at + 1] == ArchiveCall::Bytes(encoded@[i as int]@));
                assert(calls + plan.take(at + 1) =~= (calls + plan.take(at)).push(plan[at]));
                assert(calls + plan.take(at + 2) =~= (calls + plan.take(at + 1)).push(
                    plan[at + 1],
                ));
            }
            if let Err(e) = zip_start_file(self, name.as_str()) {
                proof {
                    assert(is_first_refused(calls, plan, at));
                }
                return Err(ArchiveError::Zip(e));
            }
            if let Err(e) = zip_write_all(self, encoded[i].as_slice()) {
                proof {
                    assert(is_first_refused(calls, plan, at + 1));
                }
                return Err(ArchiveError::Io(e));
            }
            proof {
                let started = taken.push((name@, Seq::<u8>::empty()));
                assert(started.drop_last() =~= taken);
                assert(Seq::<u8>::empty() + encoded@[i as int]@ =~= encoded@[i as int]@);
                if encoded@[i as int]@.len() == 0 {
                    assert(encoded@[i as int]@ =~= Seq::<u8>::empty());
                }
                assert(archive_entries(*self) =~= head + Seq::new(
                    (i + 1) as nat,
                    |k: int| (path_texts(images@)[k], byte_views(encoded@)[k]),
                ));
            }
            i += 1;
        }
        let ghost taken = archive_entries(*self);
        let ghost at = 1 + 2 * i;
        proof {
            assert(plan[at] == ArchiveCall::File("data.json"@));
            assert(plan[at + 1] == ArchiveCall::Bytes(data@));
            assert(calls + plan.take(at + 1) =~= (calls + plan.take(at)).push(plan[at]));
            assert(calls + plan.take(at + 2) =~= (calls + plan.take(at + 1)).push(plan[at + 1]));
            assert(plan.take(at + 2) =~= plan);
        }
        if let Err(e) = zip_start_file(self, "data.json") {
            proof {
                assert(is_first_refused(calls, plan, at));
            }
            return Err(ArchiveError::Zip(e));
        }
        if let Err(e) = zip_write_all(self, data) {
            proof {
                assert(is_first_refused(calls, plan, at + 1));
            }
            return Err(ArchiveError::Io(e));
        }
        proof {
            let started = taken.push(("data.json"@, Seq::<u8>::empty()));
            assert(started.drop_last() =~= taken);
            assert(Seq::<u8>::empty() + data@ =~= data@);
            if data@.len() == 0 {
                assert(data@ =~= Seq::<u8>::empty());
            }
            assert(archive_entries(*self) =~= before + hat_entries(
                path_texts(images@),
                byte_views(encoded@),
                data@,
            ));
        }
        Ok(())
    }

    /// Closes the archive and hands out its bytes: those that closing gives
    /// after the calls that were made on this archive. Where the crate `zip`
    /// fails to close it, its error comes back.
    pub fn finish(self) -> (bytes: Result<Vec<u8>, ArchiveError>)
        ensures
            bytes is Ok <==> closed_bytes(archive_calls(self)) is Some,
            bytes matches Ok(b) ==> Some(b@) == closed_bytes(archive_calls(self)),
            bytes matches Err(e) ==> e is Zip,
    {
        finish_outcome(zip_finish(self))
    }
}

/// What closing an archive hands out, given the answer of the crate `zip`:
/// the bytes that it gave, or its error as the error of the archive.
pub fn finish_outcome(answer: Result<Vec<u8>, zip::result::ZipError>) -> (bytes: Result<
    Vec<u8>,
    ArchiveError,
>)
    ensures
        answer matches Ok(b) ==> bytes == Ok::<Vec<u8>, ArchiveError>(b),
        answer matches Err(e) ==> bytes == Err::<Vec<u8>, ArchiveError>(ArchiveError::Zip(e)),
{
    match answer {
        Ok(bytes) => Ok(bytes),
        Err(e) => Err(ArchiveError::Zip(e)),
    }
}

/// The bytes of the archive of a hat: those that closing gives after the
/// folder `images`, each encoded image under its path, and `data` as
/// `data.json` were put into a new archive. There must be one encoded image
/// for each path. It succeeds where the crate `zip` accepts each of these
/// calls in turn and then closes the archive; the error is that of the first
/// call that is refused, or that of closing.
pub fn write_archive(images: &Vec<HatPath>, encoded: &Vec<Vec<u8>>, data: &[u8]) -> (bytes: Result<
    Vec<u8>,
    ArchiveError,
>)
    ensures
        bytes is Ok <==> images@.len() == encoded@.len() && all_accepted(
            Seq::<ArchiveCall>::empty(),
            hat_calls(path_texts(images@), byte_views(encoded@), data@),
        ) && closed_bytes(hat_calls(path_texts(images@), byte_views(encoded@), data@)) is Some,
        bytes matches Ok(b) ==> Some(b@) == closed_bytes(
            hat_calls(path_texts(images@), byte_views(encoded@), data@),
        ),
        bytes is Ok ==> exists|archive: Archive|
            #![auto]
            archive_calls(archive) == hat_calls(path_texts(images@), byte_views(encoded@), data@)
                && archive_entries(archive) == hat_entries(
                path_texts(images@),
                byte_views(encoded@),
                data@,
            ),
        images@.len() != encoded@.len() ==> bytes matches Err(ArchiveError::ImageCountMismatch),
        images@.len() == encoded@.len() ==> (bytes matches Err(e) ==> if all_accepted(
            Seq::<ArchiveCall>::empty(),
            hat_calls(path_texts(images@), byte_views(encoded@), data@),
        ) {
            e is Zip
        } else {
            exists|at: int|
                is_first_refused(
                    Seq::<ArchiveCall>::empty(),
                    hat_calls(path_texts(images@), byte_views(encoded@), data@),
                    at,
                ) && is_refusal_of(
                    e,
                    #[trigger] hat_calls(path_texts(images@), byte_views(encoded@), data@)[at],
                )
        }),
{
    let mut archive = Archive::new();
    let ghost plan = hat_calls(path_texts(images@), byte_views(encoded@), data@);
    match archive.add_hat(images, encoded, data) {
        Ok(()) => {
            let ghost filled = archive;
            proof {
                let entries = hat_entries(path_texts(images@), byte_views(encoded@), data@);
                assert(Seq::<(Seq<char>, Seq<u8>)>::empty() + entries =~= entries);
                assert(Seq::<ArchiveCall>::empty() + plan =~= plan);
                assert(archive_calls(filled) == plan && archive_entries(filled) == entries);
            }
            archive.finish()
        },
        Err(e) => Err(e),
    }
}

/// The entries that were read from an archive, of each its name and its
/// bytes.
pub open spec fn entry_views(entries: Seq<(String, Vec<u8>)>) -> Seq<(Seq<char>, Seq<u8>)> {
    Seq::new(entries.len(), |i: int| (entries[i].0@, entries[i].1@))
}

/// Whether the entry at place `at` is the first of the given name.
pub open spec fn is_first_named(
    entries: Seq<(Seq<char>, Seq<u8>)>,
    name: Seq<char>,
    at: int,
) -> bool {
    &&& 0 <= at < entries.len()
    &&& entries[at].0 == name
    &&& forall|k: int| 0 <= k < at ==> (#[trigger] entries[k]).0 != name
}

/// The bytes that the entries hold under a name: those of the first entry
/// of that name, if there is one.
pub open spec fn entry_named(entries: Seq<(Seq<char>, Seq<u8>)>, name: Seq<char>) -> Option<
    Seq<u8>,
> {
    if exists|at: int| is_first_named(entries, name, at) {
        Some(entries[choose|at: int| is_first_named(entries, name, at)].1)
    } else {
        None
    }
}

/// Whether `at` is the first place of `names` whose name the entries do not
/// hold.
pub open spec fn is_first_absent(
    entries: Seq<(Seq<char>, Seq<u8>)>,
    names: Seq<Seq<char>>,
    at: int,
) -> bool {
    &&& 0 <= at < names.len()
    &&& entry_named(entries, names[at]) is None
    &&& forall|k: int| 0 <= k < at ==> entry_named(entries, #[trigger] names[k]) is Some
}

/// Two first entries of one name are the same entry.
pub proof fn lemma_first_named_once(
    entries: Seq<(Seq<char>, Seq<u8>)>,
    name: Seq<char>,
    a: int,
    b: int,
)
    requires
        is_first_named(entries, name, a),
        is_first_named(entries, name, b),
    ensures
        a == b,
{
    if a < b {
        assert(entries[a].0 != name);
    } else if b < a {
        assert(entries[b].0 != name);
    }
}

/// The bytes that the entries of an archive hold under a name.
pub fn find_entry<'a>(entries: &'a Vec<(String, Vec<u8>)>, name: &str) -> (found: Option<
    &'a Vec<u8>,
>)
    ensures
        found is Some <==> entry_named(entry_views(entries@), name@) is Some,
        found matches Some(bytes) ==> Some(bytes@) == entry_named(entry_views(entries@), name@),
{
    let ghost views = entry_views(entries@);
    let mut i: usize = 0;
    while i < entries.len()
        invariant
            i <= entries@.len(),
            views == entry_views(entries@),
            forall|k: int| 0 <= k < i ==> (#[trigger] views[k]).0 != name@,
        decreases entries.len() - i,
    {
        if same_text(entries[i].0.as_str(), name) {
            proof {
                assert(is_first_named(views, name@, i as int));
                let chosen = choose|at: int| is_first_named(views, name@, at);
                lemma_first_named_once(views, name@, chosen, i as int);
            }
            return Some(&entries[i].1);
        }
        i += 1;
    }
    proof {
        assert forall|at: int| !is_first_named(views, name@, at) by {
            if 0 <= at < views.len() {
                assert(views[at].0 != name@);
            }
        }
    }
    None
}

/// The stored form of a hat among the entries of an archive: the bytes of
/// `data.json`.
pub fn data_entry<'a>(entries: &'a Vec<(String, Vec<u8>)>) -> (found: Option<&'a Vec<u8>>)
    ensures
        found is Some <==> entry_named(entry_views(entries@), "data.json"@) is Some,
        found matches Some(bytes) ==> Some(bytes@) == entry_named(
            entry_views(entries@),
            "data.json"@,
        ),
{
    find_entry(entries, "data.json")
}

/// The encoded images among the entries of an archive: for each path, in
/// order, the bytes that the archive holds under it. Where the archive does
/// not hold every path, the place of the first that it lacks comes back.
pub fn image_entries<'a>(entries: &'a Vec<(String, Vec<u8>)>, images: &Vec<HatPath>) -> (found:
    Result<Vec<&'a Vec<u8>>, usize>)
    ensures
        found is Ok <==> forall|k: int|
            0 <= k < images@.len() ==> entry_named(
                entry_views(entries@),
                #[trigger] path_texts(images@)[k],
            ) is Some,
        found matches Ok(list) ==> list@.len() == images@.len() && forall|k: int|
            0 <= k < images@.len() ==> Some((#[trigger] list@[k])@) == entry_named(
                entry_views(entries@),
                path_texts(images@)[k],
            ),
        found matches Err(at) ==> is_first_absent(
            entry_views(entries@),
            path_texts(images@),
            at as int,
        ),
{
    let ghost names = path_texts(images@);
    let mut list: Vec<&'a Vec<u8>> = Vec::new();
    let mut i: usize = 0;
    while i < images.len()
        invariant
            i <= images@.len(),
            names == path_texts(images@),
            list@.len() == i,
            forall|k: int|
                0 <= k < i ==> Some((#[trigger] list@[k])@) == entry_named(
                    entry_views(entries@),
                    names[k],
                ),
            forall|k: int|
                0 <= k < i ==> entry_named(entry_views(entries@), #[trigger] names[k]) is Some,
        decreases images.len() - i,
    {
        let name = images[i].to_text();
        assert(name@ == path_texts(images@)[i as int]);
        match find_entry(entries, name.as_str()) {
            Some(bytes) => {
                list.push(bytes);
            },
            None => {
                return Err(i);
            },
        }
        i += 1;
    }
    Ok(list)
}

/// What was put into the archive of a hat is found in its entries again: the
/// stored form of the hat under `data.json`, and each encoded image under
/// its path. This holds where no two images have the same path and none is
/// named like the folder of the images or like the stored form.
pub proof fn lemma_hat_entries_found(
    images: Seq<Seq<char>>,
    contents: Seq<Seq<u8>>,
    data: Seq<u8>,
)
    requires
        images.len() == contents.len(),
        forall|i: int, j: int| 0 <= i < j < images.len() ==> images[i] != images[j],
        forall|i: int|
            0 <= i < images.len() ==> images[i] != "images/"@ && images[i] != "data.json"@,
    ensures
        entry_named(hat_entries(images, contents, data), "data.json"@) == Some(data),
        forall|i: int|
            0 <= i < images.len() ==> entry_named(
                hat_entries(images, contents, data),
                #[trigger] images[i],
            ) == Some(contents[i]),
{
    let entries = hat_entries(images, contents, data);
    reveal_strlit("images/");
    reveal_strlit("data.json");
    assert("images/"@ != "data.json"@) by {
        assert("images/"@.len() != "data.json"@.len());
    }
    let last = images.len() + 1;
    assert(entries[last as int] == ("data.json"@, data));
    assert(is_first_named(entries, "data.json"@, last as int)) by {
        assert forall|k: int| 0 <= k < last implies (#[trigger] entries[k]).0 != "data.json"@ by {
            if k > 0 {
                assert(entries[k] == (images[k - 1], contents[k - 1]));
            }
        }
    }
    lemma_first_named_once(
        entries,
        "data.json"@,
        choose|at: int| is_first_named(entries, "data.json"@, at),
        last as int,
    );
    assert forall|i: int| 0 <= i < images.len() implies entry_named(
        entries,
        #[trigger] images[i],
    ) == Some(contents[i]) by {
        assert(entries[i + 1] == (images[i], contents[i]));
        assert(is_first_named(entries, images[i], i + 1)) by {
            assert forall|k: int| 0 <= k < i + 1 implies (#[trigger] entries[k]).0
                != images[i] by {
                if k > 0 {
                    assert(entries[k] == (images[k - 1], contents[k - 1]));
                }
            }
        }
        lemma_first_named_once(
            entries,
            images[i],
            choose|at: int| is_first_named(entries, images[i], at),
            i + 1,
        );
    }
}

} // verus!
