//! Writing a hat down: what is written where, and the order of the file
//! operations that replace a file without ever leaving half of it.
//!
//! The library performs no file operation. [`write_step`] tells which
//! operation comes next; the caller performs it and reports how it went.
use vstd::prelude::*;
use crate::archive::{entry_named, hat_entries};
use crate::hats::{
    archive_image_path, data_file, ids_distinct, is_first_missing, is_present, is_stored_form,
    lemma_archive_path_texts, required_files, stored_paths, GenDataError, Hat, HatElement,
    HatSaveType, MissingFile,
};
use crate::hats_data::HatData;
use crate::ids::IdSource;
use crate::path_utils::{path_text, path_views, suffixed, HatPath, PathView};

verus! {

/// Why a file could not be replaced.
#[derive(Debug, Clone, Copy, PartialEq, Eq, Structural)]
pub enum WriteFailure {
    /// The new content could not be written to the temporary file.
    Write,
    /// The old file could not be deleted; the temporary file was removed.
    DeleteDestination,
    /// The old file could not be deleted, and neither could the temporary
    /// file.
    RemoveTemp,
    /// The temporary file could not be renamed.
    Rename,
}

/// How replacing a file ended.
#[derive(Debug, Clone, Copy, PartialEq, Eq, Structural)]
pub enum WriteOutcome {
    Done,
    Failed(WriteFailure),
}

/// Where replacing a file stands.
#[derive(Debug, Clone, Copy, PartialEq, Eq, Structural)]
pub enum WriteState {
    /// Nothing was done yet.
    Start,
    /// The new content is being written to the temporary file.
    Writing,
    /// It is being found out whether the destination exists.
    Probing,
    /// The old file is being deleted.
    Deleting,
    /// The temporary file is being removed, because the old file could not
    /// be deleted.
    CleaningUp,
    /// The temporary file is being renamed to the destination.
    Renaming,
    /// Nothing is left to do.
    Finished(WriteOutcome),
}

/// The file operation that comes next.
#[derive(Debug, Clone, Copy, PartialEq, Eq, Structural)]
pub enum WriteAction {
    /// Write the new content to the temporary file.
    WriteTemp,
    /// Find out whether the destination exists.
    ProbeDestination,
    /// Delete the destination.
    DeleteDestination,
    /// Delete the temporary file.
    DeleteTemp,
    /// Rename the temporary file to the destination.
    Rename,
    /// Stop: this is how it ended.
    Finish(WriteOutcome),
}

/// The step that follows a state, given how the operation of that state
/// went: `answer` tells whether it succeeded or, for the probe, whether the
/// destination exists.
pub open spec fn next_step(state: WriteState, answer: bool) -> (WriteState, WriteAction) {
    match state {
        WriteState::Start => (WriteState::Writing, WriteAction::WriteTemp),
        WriteState::Writing => if answer {
            (WriteState::Probing, WriteAction::ProbeDestination)
        } else {
            finish(WriteOutcome::Failed(WriteFailure::Write))
        },
        WriteState::Probing => if answer {
            (WriteState::Deleting, WriteAction::DeleteDestination)
        } else {
            (WriteState::Renaming, WriteAction::Rename)
        },
        WriteState::Deleting => if answer {
            (WriteState::Renaming, WriteAction::Rename)
        } else {
            (WriteState::CleaningUp, WriteAction::DeleteTemp)
        },
        WriteState::CleaningUp => if answer {
            finish(WriteOutcome::Failed(WriteFailure::DeleteDestination))
        } else {
            finish(WriteOutcome::Failed(WriteFailure::RemoveTemp))
        },
        WriteState::Renaming => if answer {
            finish(WriteOutcome::Done)
        } else {
            finish(WriteOutcome::Failed(WriteFailure::Rename))
        },
        WriteState::Finished(outcome) => finish(outcome),
    }
}

/// The step that ends the work with the given outcome.
pub open spec fn finish(outcome: WriteOutcome) -> (WriteState, WriteAction) {
    (WriteState::Finished(outcome), WriteAction::Finish(outcome))
}

/// Tells what to do next when replacing a file. Start with
/// [`WriteState::Start`]; perform the operation that comes back, and call
/// again with the new state and with how the operation went, until the
/// operation is [`WriteAction::Finish`].
pub fn write_step(state: WriteState, answer: bool) -> (step: (WriteState, WriteAction))
    ensures
        step == next_step(state, answer),
{
    match state {
        WriteState::Start => (WriteState::Writing, WriteAction::WriteTemp),
        WriteState::Writing => if answer {
            (WriteState::Probing, WriteAction::ProbeDestination)
        } else {
            finished(WriteOutcome::Failed(WriteFailure::Write))
        },
        WriteState::Probing => if answer {
            (WriteState::Deleting, WriteAction::DeleteDestination)
        } else {
            (WriteState::Renaming, WriteAction::Rename)
        },
        WriteState::Deleting => if answer {
            (WriteState::Renaming, WriteAction::Rename)
        } else {
            (WriteState::CleaningUp, WriteAction::DeleteTemp)
        },
        WriteState::CleaningUp => if answer {
            finished(WriteOutcome::Failed(WriteFailure::DeleteDestination))
        } else {
            finished(WriteOutcome::Failed(WriteFailure::RemoveTemp))
        },
        WriteState::Renaming => if answer {
            finished(WriteOutcome::Done)
        } else {
            finished(WriteOutcome::Failed(WriteFailure::Rename))
        },
        WriteState::Finished(outcome) => finished(outcome),
    }
}

fn finished(outcome: WriteOutcome) -> (step: (WriteState, WriteAction))
    ensures
        step == finish(outcome),
{
    (WriteState::Finished(outcome), WriteAction::Finish(outcome))
}

/// The files on a disk: what each path holds.
pub type Files = Map<PathView, Seq<u8>>;

/// How a disk will answer the operations that are asked of it.
pub struct Disk {
    /// Whether writing the temporary file succeeds.
    pub writes: bool,
    /// What a failed write leaves at the path of the temporary file, if it
    /// leaves anything.
    pub left_by_failed_write: Option<Seq<u8>>,
    /// Whether deleting the destination succeeds.
    pub deletes: bool,
    /// Whether deleting the temporary file succeeds.
    pub cleans_up: bool,
    /// Whether renaming succeeds.
    pub renames: bool,
}

/// What one operation does to the files of a disk, and how it goes.
pub open spec fn performed(
    files: Files,
    action: WriteAction,
    disk: Disk,
    destination: PathView,
    temp: PathView,
    content: Seq<u8>,
) -> (Files, bool) {
    match action {
        WriteAction::WriteTemp => if disk.writes {
            (files.insert(temp, content), true)
        } else {
            match disk.left_by_failed_write {
                Some(partial) => (files.insert(temp, partial), false),
                None => (files, false),
            }
        },
        WriteAction::ProbeDestination => (files, files.dom().contains(destination)),
        WriteAction::DeleteDestination => if disk.deletes {
            (files.remove(destination), true)
        } else {
            (files, false)
        },
        WriteAction::DeleteTemp => if disk.cleans_up {
            (files.remove(temp), true)
        } else {
            (files, false)
        },
        WriteAction::Rename => if disk.renames {
            (files.remove(temp).insert(destination, files[temp]), true)
        } else {
            (files, false)
        },
        WriteAction::Finish(_) => (files, true),
    }
}

/// The files and the outcome when a caller follows [`write_step`] from the
/// given state on, for at most `steps` operations.
pub open spec fn followed_from(
    state: WriteState,
    answer: bool,
    files: Files,
    disk: Disk,
    destination: PathView,
    temp: PathView,
    content: Seq<u8>,
    steps: nat,
) -> (Files, Option<WriteOutcome>)
    decreases steps,
{
    let (next, action) = next_step(state, answer);
    match action {
        WriteAction::Finish(outcome) => (files, Some(outcome)),
        _ => if steps == 0 {
            (files, None)
        } else {
            let (after, went) = performed(files, action, disk, destination, temp, content);
            followed_from(next, went, after, disk, destination, temp, content, (steps - 1) as nat)
        },
    }
}

/// The files and the outcome when a caller follows [`write_step`] from the
/// start to replace `destination` by `content`.
pub open spec fn followed(
    files: Files,
    disk: Disk,
    destination: PathView,
    temp: PathView,
    content: Seq<u8>,
) -> (Files, Option<WriteOutcome>) {
    followed_from(WriteState::Start, true, files, disk, destination, temp, content, 4)
}

/// Replacing a file always comes to an end, after four operations at most.
pub proof fn lemma_write_ends(
    files: Files,
    disk: Disk,
    destination: PathView,
    temp: PathView,
    content: Seq<u8>,
)
    ensures
        followed(files, disk, destination, temp, content).1 is Some,
{
    reveal_with_fuel(followed_from, 6);
}

/// Where every operation succeeds, the destination holds the new content
/// afterwards, the temporary file is gone, and every other file is as it
/// was.
pub proof fn lemma_write_replaces(
    files: Files,
    disk: Disk,
    destination: PathView,
    temp: PathView,
    content: Seq<u8>,
)
    requires
        temp != destination,
        !files.dom().contains(temp),
        disk.writes,
        disk.deletes,
        disk.renames,
    ensures
        followed(files, disk, destination, temp, content) == (
            files.insert(destination, content),
            Some(WriteOutcome::Done),
        ),
{
    reveal_with_fuel(followed_from, 6);
    let written = files.insert(temp, content);
    if files.dom().contains(destination) {
        let deleted = written.remove(destination);
        assert(deleted.remove(temp).insert(destination, deleted[temp]) =~= files.insert(
            destination,
            content,
        ));
    } else {
        assert(written.remove(temp).insert(destination, written[temp]) =~= files.insert(
            destination,
            content,
        ));
    }
}

/// Where the old file cannot be deleted, every file is afterwards as it was
/// before: the destination holds its old content, and no temporary file
/// remains. This holds where the temporary file can be removed.
pub proof fn lemma_failed_delete_leaves_all(
    files: Files,
    disk: Disk,
    destination: PathView,
    temp: PathView,
    content: Seq<u8>,
)
    requires
        temp != destination,
        !files.dom().contains(temp),
        files.dom().contains(destination),
        disk.writes,
        !disk.deletes,
        disk.cleans_up,
    ensures
        followed(files, disk, destination, temp, content) == (
            files,
            Some(WriteOutcome::Failed(WriteFailure::DeleteDestination)),
        ),
{
    reveal_with_fuel(followed_from, 6);
    assert(files.insert(temp, content).remove(temp) =~= files);
}

/// However the disk answers, the destination is never left with anything
/// but its old content or the new content, and no file but the destination
/// and the temporary file is touched. The destination is missing afterwards
/// only where it was missing before, or where the old file was deleted and
/// the renaming failed; then the temporary file holds the new content.
pub proof fn lemma_destination_old_or_new(
    files: Files,
    disk: Disk,
    destination: PathView,
    temp: PathView,
    content: Seq<u8>,
)
    requires
        temp != destination,
    ensures
        ({
            let (after, outcome) = followed(files, disk, destination, temp, content);
            &&& forall|path: PathView|
                path != destination && path != temp ==> (after.dom().contains(path)
                    <==> files.dom().contains(path)) && (files.dom().contains(path)
                    ==> after[path] == files[path])
            &&& outcome == Some(WriteOutcome::Done) ==> after.dom().contains(destination)
                && after[destination] == content && !after.dom().contains(temp)
            &&& outcome != Some(WriteOutcome::Done) && after.dom().contains(destination)
                ==> files.dom().contains(destination) && after[destination] == files[destination]
            &&& files.dom().contains(destination) && !after.dom().contains(destination) ==> outcome
                == Some(WriteOutcome::Failed(WriteFailure::Rename)) && after.dom().contains(temp)
                && after[temp] == content
        }),
{
    reveal_with_fuel(followed_from, 6);
}

/// Whether a character can stand in a random suffix: a decimal digit, one
/// of the letters `a` to `f`, or a hyphen.
pub open spec fn is_suffix_char(ch: char) -> bool {
    ||| '0' <= ch <= '9'
    ||| 'a' <= ch <= 'f'
    ||| ch == '-'
}

/// Whether a text can be a random suffix: 36 characters, each a decimal
/// digit, one of the letters `a` to `f`, or a hyphen.
pub open spec fn is_suffix(text: Seq<char>) -> bool {
    &&& text.len() == 36
    &&& forall|i: int| 0 <= i < text.len() ==> is_suffix_char(#[trigger] text[i])
}

/// `Uuid::new_v4` of the crate `uuid`, written out by `to_string`: a random
/// identifier in its hyphenated lower-case form. The identifier is drawn
/// anew at every call, so only its shape is claimed: 36 characters, each a
/// hexadecimal digit in lower case or a hyphen.
#[verifier::external_body]
fn random_suffix() -> (suffix: String)
    ensures
        is_suffix(suffix@),
{
    uuid::Uuid::new_v4().to_string()
}

/// The path of the temporary file for a destination, given the random part:
/// the destination with an underscore and the random part added to its text.
pub open spec fn temp_path_for(destination: PathView, random: Seq<char>) -> PathView {
    suffixed(destination, seq!['_'] + random)
}

/// The path of the temporary file for a destination with the given random
/// part.
pub fn temp_path_with(destination: &HatPath, random: &str) -> (temp: HatPath)
    ensures
        temp@ == temp_path_for(destination@, random@),
{
    let mut suffix = String::new();
    suffix.push('_');
    suffix.append(random);
    assert(suffix@ =~= seq!['_'] + random@);
    destination.with_suffix(suffix.as_str())
}

/// A path for a temporary file beside `destination`: the destination with
/// an underscore and a random part added to its text. It differs from the
/// destination.
pub fn temp_path(destination: &HatPath) -> (temp: HatPath)
    ensures
        exists|random: Seq<char>| #![auto] is_suffix(random) && temp@ == temp_path_for(
            destination@,
            random,
        ),
        temp@ != destination@,
        temp@.rooted == destination@.rooted,
{
    let random = random_suffix();
    let temp = temp_path_with(destination, random.as_str());
    proof {
        lemma_temp_path_differs(destination@, random@);
    }
    temp
}

/// The temporary file for a destination is not the destination.
pub proof fn lemma_temp_path_differs(destination: PathView, random: Seq<char>)
    ensures
        temp_path_for(destination, random) != destination,
        temp_path_for(destination, random).rooted == destination.rooted,
{
    let temp = temp_path_for(destination, random);
    let suffix = seq!['_'] + random;
    assert(suffix.len() > 0);
    if destination.parts.len() > 0 {
        let last = destination.parts.last();
        assert(temp.parts.last() == last + suffix);
        assert((last + suffix).len() == last.len() + suffix.len());
    } else {
        assert(temp.parts.len() == 1);
    }
}

/// Why a hat cannot be written down.
#[derive(Debug)]
pub enum SaveError {
    /// A file that the hat needs is not there.
    Integrity(MissingFile),
    /// An image of the hat has no place in what would be written.
    Data(GenDataError),
}

impl SaveError {
    /// The message that describes the error: a missing file is named.
    pub open spec fn message_text(self) -> Seq<char> {
        match self {
            SaveError::Integrity(missing) => "failed files integrity check: "@
                + crate::hats::missing_file_text(missing.path@),
            SaveError::Data(GenDataError::ImageWithoutPath(_)) => {
                "an image of the hat was not read from a file"@
            },
            SaveError::Data(GenDataError::ImageOutsideRoot(_)) => {
                "path was not in specified directory"@
            },
        }
    }

    /// The message that describes the error.
    pub fn message(&self) -> (text: String)
        ensures
            text@ == self.message_text(),
    {
        match self {
            SaveError::Integrity(missing) => {
                let mut text = String::from_str("failed files integrity check: ");
                text.append(missing.message().as_str());
                text
            },
            SaveError::Data(GenDataError::ImageWithoutPath(_)) => String::from_str(
                "an image of the hat was not read from a file",
            ),
            SaveError::Data(GenDataError::ImageOutsideRoot(_)) => String::from_str(
                "path was not in specified directory",
            ),
        }
    }
}

/// What saving a hat to its folder writes: the stored form of the hat goes
/// to `destination` by way of `temp`.
#[derive(Debug)]
pub struct SaveJob {
    pub destination: HatPath,
    pub temp: HatPath,
    pub data: HatData,
}

/// What exporting a hat to an archive writes: an archive goes to
/// `destination` by way of `temp`. The archive holds the folder `images`,
/// then the image of each element under the path in `images`, in the order
/// of the elements, and last the stored form of the hat as `data.json`.
#[derive(Debug)]
pub struct ExportJob {
    pub destination: HatPath,
    pub temp: HatPath,
    pub data: HatData,
    pub images: Vec<HatPath>,
}

/// Whether every file that the hat needs was found.
pub open spec fn files_present(hat: Hat, present: Seq<bool>) -> bool {
    forall|k: int|
        0 <= k < required_files(hat.view_elements(), hat.view_path()).len() ==> is_present(
            present,
            k,
        )
}

/// Whether `error` is the reason for which the hat cannot be written down:
/// the first file that is not there or, where every file is there, the
/// first image that has no place in what would be written.
pub open spec fn is_save_error(
    error: SaveError,
    hat: Hat,
    present: Seq<bool>,
    save_type: HatSaveType,
) -> bool {
    match error {
        SaveError::Integrity(missing) => exists|at: int|
            #![auto]
            is_first_missing(
                required_files(hat.view_elements(), hat.view_path()).len() as int,
                present,
                at,
            ) && missing.path@ == required_files(hat.view_elements(), hat.view_path())[at],
        SaveError::Data(e) => files_present(hat, present) && stored_paths(
            hat.view_elements(),
            hat.view_path(),
            save_type,
        ) == Err::<Seq<PathView>, GenDataError>(e),
    }
}

impl Hat {
    /// Prepares saving the hat to the folder `path`. `present` answers for
    /// each of the files of [`Hat::files_to_check`] whether it is there.
    /// Nothing is prepared, and nothing drawn from `ids`, unless every file
    /// is there and every image lies in the folder of the hat.
    pub fn save(&self, path: &HatPath, present: &Vec<bool>, ids: &mut IdSource) -> (job: Result<
        SaveJob,
        SaveError,
    >)
        ensures
            job is Ok <==> files_present(*self, present@) && stored_paths(
                self.view_elements(),
                self.view_path(),
                HatSaveType::Folder,
            ) is Ok,
            job matches Ok(j) ==> j.destination@ == data_file(path@) && is_stored_form(
                j.data,
                *self,
                stored_paths(self.view_elements(), self.view_path(), HatSaveType::Folder)->Ok_0,
            ) && (exists|random: Seq<char>|
                #![auto]
                is_suffix(random) && j.temp@ == temp_path_for(j.destination@, random)),
            job matches Err(e) ==> is_save_error(e, *self, present@, HatSaveType::Folder)
                && final(ids).next_frame() == old(ids).next_frame(),
            final(ids).next_element() == old(ids).next_element(),
            final(ids).next_hat() == old(ids).next_hat(),
    {
        if let Err(missing) = self.check_files_integrity(present) {
            return Err(SaveError::Integrity(missing));
        }
        let data = match self.gen_hat_data(HatSaveType::Folder, ids) {
            Ok(data) => data,
            Err(e) => {
                return Err(SaveError::Data(e));
            },
        };
        let destination = Hat::data_path(path);
        let temp = temp_path(&destination);
        Ok(SaveJob { destination, temp, data })
    }

    /// Prepares exporting the hat to the archive file `path`. `present`
    /// answers for each of the files of [`Hat::files_to_check`] whether it
    /// is there. Nothing is prepared, and nothing drawn from `ids`, unless
    /// every file is there. In the archive the image of every element lies
    /// under a path made from the identity of the element.
    pub fn export_to_file(&self, path: &HatPath, present: &Vec<bool>, ids: &mut IdSource) -> (job:
        Result<ExportJob, SaveError>)
        ensures
            job is Ok <==> files_present(*self, present@),
            job matches Ok(j) ==> j.destination@ == path@ && is_stored_form(
                j.data,
                *self,
                path_views(j.images@),
            ) && j.images@.len() == self.view_elements().len() && (forall|i: int|
                0 <= i < self.view_elements().len() ==> (#[trigger] j.images@[i])@
                    == archive_image_path(self.view_elements()[i].view_id())) && (exists|
                random: Seq<char>,
            |
                #![auto]
                is_suffix(random) && j.temp@ == temp_path_for(j.destination@, random)),
            job matches Err(e) ==> is_save_error(e, *self, present@, HatSaveType::File) && final(
                ids).next_frame() == old(ids).next_frame(),
            final(ids).next_element() == old(ids).next_element(),
            final(ids).next_hat() == old(ids).next_hat(),
    {
        if let Err(missing) = self.check_files_integrity(present) {
            return Err(SaveError::Integrity(missing));
        }
        proof {
            crate::hats::lemma_archive_paths(self.view_elements(), self.view_path());
        }
        let images = match self.stored_paths(HatSaveType::File) {
            Ok(images) => images,
            Err(e) => {
                return Err(SaveError::Data(e));
            },
        };
        let data = match self.gen_hat_data(HatSaveType::File, ids) {
            Ok(data) => data,
            Err(e) => {
                return Err(SaveError::Data(e));
            },
        };
        proof {
            let stored = stored_paths(self.view_elements(), self.view_path(), HatSaveType::File)->Ok_0;
            assert(path_views(images@) == stored);
            assert forall|i: int| 0 <= i < self.view_elements().len() implies (
            #[trigger] images@[i])@ == archive_image_path(self.view_elements()[i].view_id()) by {
                assert(path_views(images@)[i] == images@[i]@);
            }
        }
        let destination = path.duplicate();
        let temp = temp_path(&destination);
        Ok(ExportJob { destination, temp, data, images })
    }
}

/// The names under which the images of the elements lie in an archive, in
/// order.
pub open spec fn archive_names(elements: Seq<HatElement>) -> Seq<Seq<char>> {
    Seq::new(elements.len(), |i: int| path_text(archive_image_path(elements[i].view_id())))
}

/// What exporting puts into the archive of a hat is found in its entries
/// again: the stored form of the hat under `data.json`, and the encoded
/// image of every element under the path that is made from its identity.
pub proof fn lemma_exported_entries_found(
    elements: Seq<HatElement>,
    contents: Seq<Seq<u8>>,
    data: Seq<u8>,
)
    requires
        ids_distinct(elements),
        contents.len() == elements.len(),
    ensures
        entry_named(hat_entries(archive_names(elements), contents, data), "data.json"@) == Some(
            data,
        ),
        forall|i: int|
            0 <= i < elements.len() ==> entry_named(
                hat_entries(archive_names(elements), contents, data),
                #[trigger] archive_names(elements)[i],
            ) == Some(contents[i]),
{
    let names = archive_names(elements);
    assert forall|i: int, j: int| 0 <= i < j < names.len() implies names[i] != names[j] by {
        lemma_archive_path_texts(elements[i].view_id(), elements[j].view_id());
    }
    assert forall|i: int| 0 <= i < names.len() implies names[i] != "images/"@ && names[i]
        != "data.json"@ by {
        lemma_archive_path_texts(elements[i].view_id(), elements[i].view_id());
    }
    crate::archive::lemma_hat_entries_found(names, contents, data);
}

} // verus!
