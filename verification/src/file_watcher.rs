//! Which of the watched files have changed since they were last looked at.
//! The watcher does not read the disk itself: it is told when each file was
//! last modified, and keeps what it was told.
use vstd::prelude::*;
use crate::path_utils::{HatPath, PathView};

verus! {

/// A point in time, in milliseconds since the start of 1970.
#[derive(Clone, Copy, PartialEq, Eq, Debug, Structural)]
pub struct Ms(pub u128);

/// Identity of a watched file.
#[derive(Debug, Clone, Copy, PartialEq, Eq, Hash, Structural)]
pub struct FileId(pub usize);

/// What the watcher keeps of one file.
#[derive(Debug)]
pub struct FileData {
    pub path: HatPath,
    pub id: FileId,
    pub last_modification_time: Ms,
}

/// A file that has changed: its identity and its path.
#[derive(Debug)]
pub struct UpdatedFile {
    pub id: FileId,
    pub path: HatPath,
}

/// The files that had changed when the watcher last looked.
pub struct UpdatedFiles<'a> {
    files: &'a Vec<UpdatedFile>,
}

/// Whether one of the changed files has the given identity.
pub open spec fn is_updated(files: Seq<UpdatedFile>, id: FileId) -> bool {
    exists|i: int| 0 <= i < files.len() && (#[trigger] files[i]).id == id
}

impl<'a> UpdatedFiles<'a> {
    pub closed spec fn view_files(&self) -> Seq<UpdatedFile> {
        self.files@
    }

    /// Whether the file with the given identity had changed.
    pub fn file_accessed(&self, file_id: FileId) -> (accessed: bool)
        ensures
            accessed == is_updated(self.view_files(), file_id),
    {
        let mut i: usize = 0;
        while i < self.files.len()
            invariant
                i <= self.files@.len(),
                forall|k: int| 0 <= k < i ==> (#[trigger] self.files@[k]).id != file_id,
            decreases self.files.len() - i,
        {
            if self.files[i].id.0 == file_id.0 {
                return true;
            }
            i += 1;
        }
        false
    }
}

/// Whether no two of the files have the same path.
pub open spec fn paths_distinct(files: Seq<FileData>) -> bool {
    forall|i: int, j: int|
        0 <= i < j < files.len() ==> (#[trigger] files[i]).path@ != (#[trigger] files[j]).path@
}

/// Whether one of the files has the given path.
pub open spec fn is_watched(files: Seq<FileData>, path: PathView) -> bool {
    exists|i: int| 0 <= i < files.len() && (#[trigger] files[i]).path@ == path
}

/// The place of the file with the given path, where there is one.
pub open spec fn watched_at(files: Seq<FileData>, path: PathView) -> int {
    choose|i: int| 0 <= i < files.len() && (#[trigger] files[i]).path@ == path
}

/// The identity that follows `n`: one more, and zero after the largest.
pub open spec fn file_id_after(n: usize) -> usize {
    if n == usize::MAX {
        0
    } else {
        (n + 1) as usize
    }
}

/// Whether `file` is what the watcher keeps of a file with the given path,
/// identity and time.
pub open spec fn is_file(file: FileData, path: PathView, id: usize, time: Ms) -> bool {
    file.path@ == path && file.id == FileId(id) && file.last_modification_time == time
}

/// Whether `after` are the watched files once a file was put under watch:
/// it stands where a file of the same path stood before, or at the end.
pub open spec fn watched_with(
    before: Seq<FileData>,
    after: Seq<FileData>,
    path: PathView,
    id: usize,
    time: Ms,
) -> bool {
    if is_watched(before, path) {
        let at = watched_at(before, path);
        &&& after.len() == before.len()
        &&& is_file(after[at], path, id, time)
        &&& forall|k: int| 0 <= k < before.len() && k != at ==> after[k] == before[k]
    } else {
        &&& after.len() == before.len() + 1
        &&& is_file(after.last(), path, id, time)
        &&& forall|k: int| 0 <= k < before.len() ==> after[k] == before[k]
    }
}

/// The time that was told for the file at place `at`, if one was told.
pub open spec fn told_time(times: Seq<Option<Ms>>, at: int) -> Option<Ms> {
    if 0 <= at < times.len() {
        times[at]
    } else {
        None
    }
}

/// Whether the file is seen to have changed: a time was told for it, and it
/// is not the time that the watcher kept.
pub open spec fn has_changed(file: FileData, times: Seq<Option<Ms>>, at: int) -> bool {
    told_time(times, at) matches Some(time) && time != file.last_modification_time
}

/// The files that have changed, in the order of the watched files. A later
/// file with the identity of an earlier one takes its place.
pub open spec fn changed_files(files: Seq<FileData>, times: Seq<Option<Ms>>) -> Seq<(FileId, PathView)>
    decreases files.len(),
{
    if files.len() == 0 {
        Seq::empty()
    } else {
        let before = changed_files(files.drop_last(), times);
        let file = files.last();
        if has_changed(file, times, files.len() - 1) {
            put_changed(before, file.id, file.path@)
        } else {
            before
        }
    }
}

/// The changed files with one more: in the place of the entry with the same
/// identity, or at the end.
pub open spec fn put_changed(entries: Seq<(FileId, PathView)>, id: FileId, path: PathView) -> Seq<
    (FileId, PathView),
> {
    if exists|i: int| 0 <= i < entries.len() && (#[trigger] entries[i]).0 == id {
        entries.update(first_with_id(entries, id), (id, path))
    } else {
        entries.push((id, path))
    }
}

/// The first place where the entries have the given identity.
pub open spec fn first_with_id(entries: Seq<(FileId, PathView)>, id: FileId) -> int {
    choose|i: int|
        0 <= i < entries.len() && (#[trigger] entries[i]).0 == id && forall|k: int|
            0 <= k < i ==> (#[trigger] entries[k]).0 != id
}

/// The changed files as mathematical values.
pub open spec fn updated_views(files: Seq<UpdatedFile>) -> Seq<(FileId, PathView)> {
    Seq::new(files.len(), |i: int| (files[i].id, files[i].path@))
}

/// The time that the watcher keeps for a file after it has looked: the time
/// that was told, if one was told, else the time that it kept before.
pub open spec fn time_after(file: FileData, times: Seq<Option<Ms>>, at: int) -> Ms {
    match told_time(times, at) {
        Some(time) => time,
        None => file.last_modification_time,
    }
}

/// Watches files for changes. No two watched files have the same path.
/// The watched files are kept in the order in which they came, and the
/// changes are told in that order.
pub struct FileWatcher {
    updated_files: Vec<UpdatedFile>,
    files_by_paths: Vec<FileData>,
    file_id_counter: usize,
}

impl FileWatcher {
    #[verifier::type_invariant]
    spec fn well_formed(&self) -> bool {
        paths_distinct(self.files_by_paths@)
    }

    /// The watched files, in the order in which their paths came under
    /// watch.
    pub closed spec fn view_files(&self) -> Seq<FileData> {
        self.files_by_paths@
    }

    /// The files that had changed when the watcher last looked.
    pub closed spec fn view_updated(&self) -> Seq<UpdatedFile> {
        self.updated_files@
    }

    /// The identity that the next watched file will get.
    pub closed spec fn view_next_id(&self) -> usize {
        self.file_id_counter
    }

    pub fn new() -> (watcher: FileWatcher)
        ensures
            watcher.view_files() == Seq::<FileData>::empty(),
            watcher.view_updated() == Seq::<UpdatedFile>::empty(),
            watcher.view_next_id() == 0,
    {
        FileWatcher { files_by_paths: Vec::new(), updated_files: Vec::new(), file_id_counter: 0 }
    }

    /// The watched files, in the order in which their paths came under
    /// watch. No two have the same path.
    pub fn watched(&self) -> (files: &Vec<FileData>)
        ensures
            files@ == self.view_files(),
            paths_distinct(files@),
    {
        proof {
            use_type_invariant(self);
        }
        &self.files_by_paths
    }

    /// The place of the watched file with the given path.
    fn place_of(&self, path: &HatPath) -> (place: Option<usize>)
        ensures
            place is Some <==> is_watched(self.view_files(), path@),
            place matches Some(at) ==> at < self.view_files().len() && at == watched_at(
                self.view_files(),
                path@,
            ),
    {
        proof {
            use_type_invariant(self);
        }
        let mut i: usize = 0;
        while i < self.files_by_paths.len()
            invariant
                i <= self.files_by_paths@.len(),
                paths_distinct(self.files_by_paths@),
                forall|k: int| 0 <= k < i ==> (#[trigger] self.files_by_paths@[k]).path@ != path@,
            decreases self.files_by_paths.len() - i,
        {
            if self.files_by_paths[i].path.same_as(path) {
                proof {
                    let chosen = watched_at(self.files_by_paths@, path@);
                    if chosen < i {
                        assert(self.files_by_paths@[chosen].path@ != path@);
                    } else if i < chosen {
                        assert(self.files_by_paths@[i as int].path@ != self.files_by_paths@[chosen].path@);
                    }
                }
                return Some(i);
            }
            i += 1;
        }
        None
    }

    /// Puts the file at `path` under watch. `modified` is when the file was
    /// last modified, or nothing if that could not be found out; then the
    /// file is not put under watch. An identity is used up either way. A
    /// file that is watched already is watched under the new identity from
    /// now on.
    pub fn watch_file(&mut self, path: &HatPath, modified: Option<Ms>) -> (id: Option<FileId>)
        ensures
            final(self).view_next_id() == file_id_after(old(self).view_next_id()),
            final(self).view_updated() == old(self).view_updated(),
            id is Some <==> modified is Some,
            id matches Some(given) ==> given == FileId(old(self).view_next_id()) && watched_with(
                old(self).view_files(),
                final(self).view_files(),
                path@,
                old(self).view_next_id(),
                modified->0,
            ),
            id is None ==> final(self).view_files() == old(self).view_files(),
    {
        proof {
            use_type_invariant(&*self);
        }
        let new_id = self.new_file_id();
        let time = match modified {
            Some(time) => time,
            None => {
                return None;
            },
        };
        let place = self.place_of(path);
        let file = FileData { path: path.duplicate(), last_modification_time: time, id: new_id };
        let mut files: Vec<FileData> = Vec::new();
        std::mem::swap(&mut self.files_by_paths, &mut files);
        let ghost before = files@;
        match place {
            Some(at) => {
                files.set(at, file);
                assert forall|i: int, j: int| 0 <= i < j < files@.len() implies (
                #[trigger] files@[i]).path@ != (#[trigger] files@[j]).path@ by {
                    assert(files@[i].path@ == before[i].path@);
                    assert(files@[j].path@ == before[j].path@);
                }
            },
            None => {
                files.push(file);
                assert forall|i: int, j: int| 0 <= i < j < files@.len() implies (
                #[trigger] files@[i]).path@ != (#[trigger] files@[j]).path@ by {
                    if j == before.len() {
                        assert(before[i].path@ != path@);
                    }
                }
            },
        }
        std::mem::swap(&mut self.files_by_paths, &mut files);
        Some(new_id)
    }

    /// Looks at the watched files. `times` holds for each watched file, in
    /// their order, when it was last modified, or nothing if that could not
    /// be found out. A file has changed if a time was told for it that the
    /// watcher did not keep; the watcher keeps the new time. The result
    /// holds the files that have changed.
    pub fn update(&mut self, times: &Vec<Option<Ms>>) -> (updated: UpdatedFiles<'_>)
        ensures
            updated.view_files() == final(self).view_updated(),
            updated_views(final(self).view_updated()) == changed_files(
                old(self).view_files(),
                times@,
            ),
            final(self).view_next_id() == old(self).view_next_id(),
            final(self).view_files().len() == old(self).view_files().len(),
            forall|i: int|
                0 <= i < old(self).view_files().len() ==> is_file(
                    #[trigger] final(self).view_files()[i],
                    old(self).view_files()[i].path@,
                    old(self).view_files()[i].id.0,
                    time_after(old(self).view_files()[i], times@, i),
                ),
    {
        proof {
            use_type_invariant(&*self);
        }
        let mut files: Vec<FileData> = Vec::new();
        std::mem::swap(&mut self.files_by_paths, &mut files);
        let ghost before = files@;
        let mut updated: Vec<UpdatedFile> = Vec::new();
        let mut i: usize = 0;
        assert(before.take(0) =~= Seq::<FileData>::empty());
        assert(updated_views(updated@) =~= Seq::<(FileId, PathView)>::empty());
        while i < files.len()
            invariant
                i <= files@.len() == before.len(),
                paths_distinct(before),
                updated_views(updated@) == changed_files(before.take(i as int), times@),
                forall|k: int|
                    0 <= k < i ==> is_file(
                        #[trigger] files@[k],
                        before[k].path@,
                        before[k].id.0,
                        time_after(before[k], times@, k),
                    ),
                forall|k: int| i <= k < files@.len() ==> files@[k] == before[k],
            decreases files.len() - i,
        {
            proof {
                assert(before.take(i + 1).drop_last() =~= before.take(i as int));
                assert(before.take(i + 1).last() == before[i as int]);
            }
            let told: Option<Ms> = if i < times.len() {
                times[i]
            } else {
                None
            };
            if let Some(new_modify_time) = told {
                if new_modify_time.0 != files[i].last_modification_time.0 {
                    let id = files[i].id;
                    let path = files[i].path.duplicate();
                    let changed = FileData {
                        path: files[i].path.duplicate(),
                        id,
                        last_modification_time: new_modify_time,
                    };
                    files.set(i, changed);
                    put_updated(&mut updated, id, path);
                }
            }
            i += 1;
        }
        assert(before.take(i as int) =~= before);
        assert forall|a: int, b: int| 0 <= a < b < files@.len() implies (#[trigger] files@[a]).path@
            != (#[trigger] files@[b]).path@ by {
            assert(before[a].path@ != before[b].path@);
        }
        std::mem::swap(&mut self.files_by_paths, &mut files);
        self.updated_files = updated;
        UpdatedFiles { files: &self.updated_files }
    }

    /// Draws the next identity of a watched file.
    fn new_file_id(&mut self) -> (id: FileId)
        ensures
            id == FileId(old(self).view_next_id()),
            final(self).view_next_id() == file_id_after(old(self).view_next_id()),
            final(self).view_files() == old(self).view_files(),
            final(self).view_updated() == old(self).view_updated(),
    {
        proof {
            use_type_invariant(&*self);
        }
        let file_id = FileId(self.file_id_counter);
        self.file_id_counter = if self.file_id_counter == usize::MAX {
            0
        } else {
            self.file_id_counter + 1
        };
        file_id
    }
}

/// Notes that a file has changed: its entry takes the place of the first
/// entry with the same identity, or stands at the end.
fn put_updated(updated: &mut Vec<UpdatedFile>, id: FileId, path: HatPath)
    ensures
        updated_views(final(updated)@) == put_changed(updated_views(old(updated)@), id, path@),
{
    let ghost before = updated_views(updated@);
    let mut i: usize = 0;
    while i < updated.len()
        invariant
            i <= updated@.len(),
            updated@ == old(updated)@,
            before == updated_views(updated@),
            forall|k: int| 0 <= k < i ==> (#[trigger] before[k]).0 != id,
        decreases updated.len() - i,
    {
        if updated[i].id.0 == id.0 {
            proof {
                assert(before[i as int].0 == id);
                let chosen = first_with_id(before, id);
                if chosen < i {
                    assert(before[chosen].0 != id);
                }
            }
            updated.set(i, UpdatedFile { id, path });
            assert(updated_views(updated@) =~= before.update(i as int, (id, path@)));
            return;
        }
        i += 1;
    }
    updated.push(UpdatedFile { id, path });
    assert(updated_views(updated@) =~= before.push((id, path@)));
}

impl Default for FileWatcher {
    fn default() -> (watcher: FileWatcher)
        ensures
            watcher.view_files() == Seq::<FileData>::empty(),
            watcher.view_updated() == Seq::<UpdatedFile>::empty(),
            watcher.view_next_id() == 0,
    {
        FileWatcher::new()
    }
}

} // verus!
