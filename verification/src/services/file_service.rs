use vstd::prelude::*;
use crate::db::database::{
    Database,
    DbError,
    DbView,
    eq_up_to_times,
    next_id,
    lemma_eq_up_to_times,
    lemma_eq_up_to_times_refl,
    lemma_eq_up_to_times_with_file,
    view_files,
};
use crate::db::file_repo;
use crate::db::rows::{rows_kept, rows_stay, lemma_rows_exact, lemma_rows_stay_kept, lemma_rows_with_file};
use crate::domain::file::{File, FileView};
use crate::utils::time;

verus! {

/// Tracking `path` in `v`, with the creation time left at 0: the database
/// after and the outcome. A tracked path is ignored; otherwise the file
/// takes the next id, if one is left.
pub open spec fn track_one(v: DbView, path: Seq<char>) -> (DbView, Result<Option<i64>, DbError>) {
    if v.has_path(path) {
        (v, Ok(None))
    } else {
        match next_id(v.file_ids()) {
            Some(id) => (v.with_file(FileView { id, path, created_at: 0 }), Ok(Some(id))),
            None => (v, Err(DbError::Full)),
        }
    }
}

/// Tracking the paths one after the other, with creation times left at 0:
/// the database after and the ids of the files that were new, or the first
/// error (the database then as it stood when the error came).
pub open spec fn track_all(v: DbView, paths: Seq<Seq<char>>) -> (DbView, Result<Seq<i64>, DbError>)
    decreases paths.len(),
{
    if paths.len() == 0 {
        (v, Ok(Seq::empty()))
    } else {
        let (w, r) = track_all(v, paths.drop_last());
        match r {
            Err(e) => (w, Err(e)),
            Ok(ids) => {
                let (w2, r2) = track_one(w, paths.last());
                match r2 {
                    Ok(Some(id)) => (w2, Ok(ids.push(id))),
                    Ok(None) => (w2, Ok(ids)),
                    Err(e) => (w2, Err(e)),
                }
            },
        }
    }
}

pub open spec fn view_texts(s: Seq<String>) -> Seq<Seq<char>> {
    s.map_values(|t: String| t@)
}

/// Once the tracking of a prefix fails, the tracking of the whole fails
/// with the same error.
proof fn lemma_track_all_err_sticky(v: DbView, paths: Seq<Seq<char>>, k: int)
    requires
        0 <= k <= paths.len(),
        track_all(v, paths.take(k)).1 is Err,
    ensures
        track_all(v, paths).1 == track_all(v, paths.take(k)).1,
    decreases paths.len() - k,
{
    if k < paths.len() {
        assert(paths.take(k + 1).drop_last() =~= paths.take(k));
        lemma_track_all_err_sticky(v, paths, k + 1);
    } else {
        assert(paths.take(k) =~= paths);
    }
}

/// Tracking a file stamps it with the current time. A path that is tracked
/// already is ignored (`Ok(None)`).
pub fn track_file(db: &mut Database, path: &str) -> (res: Result<Option<i64>, DbError>)
    requires
        old(db).wf(),
    ensures
        final(db).wf(),
        res == track_one(old(db)@, path@).1,
        eq_up_to_times(final(db)@, track_one(old(db)@, path@).0),
        res matches Ok(Some(id)) ==> exists|t: i64|
            final(db)@ == old(db)@.with_file(FileView { id, path: path@, created_at: t }),
        !(res matches Ok(Some(_))) ==> final(db)@ == old(db)@,
        rows_stay(old(db)@, final(db)@),
        rows_kept(old(db)@, final(db)@),
{
    let t = time::now();
    let res = file_repo::insert_file(db, path, t);
    proof {
        lemma_eq_up_to_times_refl(old(db)@);
        if let Ok(Some(id)) = res {
            lemma_rows_with_file(old(db)@, FileView { id, path: path@, created_at: t });
            lemma_eq_up_to_times_with_file(
                old(db)@,
                old(db)@,
                FileView { id, path: path@, created_at: t },
                FileView { id, path: path@, created_at: 0 },
            );
        }
    }
    res
}

/// Tracks several files in one transaction, each stamped with the current
/// time. Paths that are tracked already, or that came earlier in the list,
/// are skipped; the ids of the new files come back in order. When an
/// insertion fails the transaction is rolled back: nothing changes.
pub fn track_files(db: &mut Database, paths: &[String]) -> (res: Result<Vec<i64>, DbError>)
    requires
        old(db).wf(),
    ensures
        final(db).wf(),
        match track_all(old(db)@, view_texts(paths@)) {
            (w, Ok(ids)) => res matches Ok(r) && r@ == ids && eq_up_to_times(final(db)@, w),
            (_, Err(e)) => res == Err::<Vec<i64>, DbError>(e) && final(db)@ == old(db)@,
        },
        rows_stay(old(db)@, final(db)@),
        rows_kept(old(db)@, final(db)@),
        track_all(old(db)@, view_texts(paths@)).0 == old(db)@ ==> final(db)@ == old(db)@,
{
    let snapshot = db.duplicate();
    let ghost all = view_texts(paths@);
    let mut file_ids: Vec<i64> = Vec::new();
    let mut i: usize = 0;
    proof {
        assert(all.take(0) =~= Seq::<Seq<char>>::empty());
        lemma_eq_up_to_times_refl(old(db)@);
    }
    while i < paths.len()
        invariant
            0 <= i <= paths.len(),
            all == view_texts(paths@),
            snapshot@ == old(db)@,
            snapshot.wf(),
            db.wf(),
            track_all(old(db)@, all.take(i as int)).1 == Ok::<Seq<i64>, DbError>(file_ids@),
            eq_up_to_times(db@, track_all(old(db)@, all.take(i as int)).0),
            rows_stay(old(db)@, db@),
        decreases paths.len() - i,
    {
        let ghost w = track_all(old(db)@, all.take(i as int)).0;
        let ghost before = db@;
        proof {
            assert(all.take(i + 1).drop_last() =~= all.take(i as int));
            assert(all.take(i + 1).last() == paths@[i as int]@);
            lemma_eq_up_to_times(before, w);
        }
        let t = time::now();
        match file_repo::insert_file(db, paths[i].as_str(), t) {
            Ok(Some(id)) => {
                file_ids.push(id);
                proof {
                    lemma_rows_with_file(before, FileView { id, path: paths@[i as int]@, created_at: t });
                    lemma_eq_up_to_times_with_file(
                        before,
                        w,
                        FileView { id, path: paths@[i as int]@, created_at: t },
                        FileView { id, path: paths@[i as int]@, created_at: 0 },
                    );
                }
            },
            Ok(None) => {},
            Err(e) => {
                proof {
                    lemma_track_all_err_sticky(old(db)@, all, i + 1);
                }
                *db = snapshot;
                return Err(e);
            },
        }
        i = i + 1;
    }
    assert(all.take(i as int) =~= all);
    proof {
        lemma_rows_stay_kept(old(db)@, db@);
        if track_all(old(db)@, all).0 == old(db)@ {
            lemma_rows_exact(db@, old(db)@);
        }
    }
    Ok(file_ids)
}

/// Stops tracking a file (and unlinks it from its groups); returns its
/// path, or `None` when no file has this id.
pub fn untrack_file(db: &mut Database, file_id: i64) -> (res: Option<String>)
    requires
        old(db).wf(),
    ensures
        final(db).wf(),
        match res {
            None => !old(db)@.has_file(file_id) && final(db)@ == old(db)@,
            Some(path) => exists|i: int|
                0 <= i < old(db)@.files.len() && #[trigger] old(db)@.files[i].id == file_id
                    && old(db)@.files[i].path == path@ && final(db)@ == old(db)@.without_file(i),
        },
{
    file_repo::delete_file(db, file_id)
}

/// The file with this id, if it is tracked.
pub fn get_file(db: &Database, file_id: i64) -> (res: Option<File>)
    requires
        db.wf(),
    ensures
        match res {
            None => !db@.has_file(file_id),
            Some(f) => f.id == file_id && db@.files.contains(f@),
        },
{
    file_repo::fetch_file(db, file_id)
}

/// The file tracked under exactly this path, if any.
pub fn find_file_by_path(db: &Database, path: &str) -> (res: Option<File>)
    requires
        db.wf(),
    ensures
        match res {
            None => !db@.has_path(path@),
            Some(f) => f.path@ == path@ && db@.files.contains(f@),
        },
{
    file_repo::find_file_by_path(db, path)
}

/// Every tracked file, in ascending id order.
pub fn list_files(db: &Database) -> (res: Vec<File>)
    requires
        db.wf(),
    ensures
        view_files(res@) == db@.files,
{
    file_repo::fetch_files(db)
}

/// What the file system says a path names (links followed).
#[derive(Debug, Clone, Copy, PartialEq, Eq)]
pub enum PathKind {
    Missing,
    File,
    Directory,
    Other,
}

/// The kind of an entry of a directory listing (links not followed).
#[derive(Debug, Clone, Copy, PartialEq, Eq)]
pub enum EntryKind {
    File,
    Directory,
    Other,
}

/// An entry of a directory listing: for a file its canonical path, for
/// anything else its path as listed.
pub struct DirEntry {
    pub path: String,
    pub kind: EntryKind,
}

/// Why a path cannot be collected.
#[derive(Debug, Clone, Copy, PartialEq, Eq)]
pub enum CollectError {
    /// The path does not exist.
    NotFound,
    /// The path is neither a file nor a directory.
    InvalidInput,
    /// A single file was asked for and the path names something else.
    NotAFile,
    /// A directory was asked for and the path names a file.
    NotADirectory,
}

/// What a tracking command expects its paths to name: `track-file` takes
/// one file, `track-files` takes directories.
#[derive(Debug, Clone, Copy, PartialEq, Eq)]
pub enum PathTarget {
    File,
    Directory,
}

/// How the collection of a path goes on.
pub enum Collection {
    /// The path is a file: its canonical path is the whole result.
    Single,
    /// The path is a directory: its listings are walked.
    Walk(PathCollector),
}

/// The state of a walk over directories: the directories still to list
/// (the last is listed next) and the canonical file paths found so far.
pub struct PathCollector {
    pub pending: Vec<String>,
    pub paths: Vec<String>,
    pub recursive: bool,
}

/// The paths of the entries that are files, in listing order.
pub open spec fn listed_files(entries: Seq<DirEntry>) -> Seq<Seq<char>>
    decreases entries.len(),
{
    if entries.len() == 0 {
        Seq::empty()
    } else {
        let rest = listed_files(entries.drop_last());
        if entries.last().kind == EntryKind::File {
            rest.push(entries.last().path@)
        } else {
            rest
        }
    }
}

/// The paths of the entries that are directories, in listing order.
pub open spec fn listed_dirs(entries: Seq<DirEntry>) -> Seq<Seq<char>>
    decreases entries.len(),
{
    if entries.len() == 0 {
        Seq::empty()
    } else {
        let rest = listed_dirs(entries.drop_last());
        if entries.last().kind == EntryKind::Directory {
            rest.push(entries.last().path@)
        } else {
            rest
        }
    }
}

/// Starts collecting the canonical paths of the files at `path`, given what
/// `path` names: a missing path and one that is neither file nor directory
/// are refused; a file is its own result; a directory is walked, starting
/// with itself.
pub fn collect_canonical_paths(path: &str, kind: PathKind, recursive: bool) -> (res: Result<
    Collection,
    CollectError,
>)
    ensures
        kind == PathKind::Missing ==> res matches Err(CollectError::NotFound),
        kind == PathKind::Other ==> res matches Err(CollectError::InvalidInput),
        kind == PathKind::File ==> res matches Ok(Collection::Single),
        kind == PathKind::Directory ==> (res matches Ok(Collection::Walk(c)) && view_texts(c.pending@)
            == seq![path@] && c.paths@.len() == 0 && c.recursive == recursive),
{
    match kind {
        PathKind::Missing => Err(CollectError::NotFound),
        PathKind::File => Ok(Collection::Single),
        PathKind::Other => Err(CollectError::InvalidInput),
        PathKind::Directory => {
            let mut pending: Vec<String> = Vec::new();
            pending.push(path.to_owned());
            assert(view_texts(pending@) =~= seq![path@]);
            Ok(Collection::Walk(PathCollector { pending, paths: Vec::new(), recursive }))
        },
    }
}

/// Starts collecting the files at `path` for a command that expects it to
/// name `target`: a missing path is refused first; `track-file` refuses
/// anything but a file; `track-files` refuses a file, and then a path that
/// is neither file nor directory. What is accepted is collected as
/// [`collect_canonical_paths`] does.
pub fn collect_for(path: &str, kind: PathKind, target: PathTarget, recursive: bool) -> (res: Result<
    Collection,
    CollectError,
>)
    ensures
        kind == PathKind::Missing ==> res matches Err(CollectError::NotFound),
        kind != PathKind::Missing && target == PathTarget::File && kind != PathKind::File ==> res matches Err(
            CollectError::NotAFile,
        ),
        target == PathTarget::File && kind == PathKind::File ==> res matches Ok(Collection::Single),
        target == PathTarget::Directory && kind == PathKind::File ==> res matches Err(
            CollectError::NotADirectory,
        ),
        target == PathTarget::Directory && kind == PathKind::Other ==> res matches Err(
            CollectError::InvalidInput,
        ),
        target == PathTarget::Directory && kind == PathKind::Directory ==> (res matches Ok(
            Collection::Walk(c),
        ) && view_texts(c.pending@) == seq![path@] && c.paths@.len() == 0 && c.recursive == recursive),
{
    match (target, kind) {
        (_, PathKind::Missing) => Err(CollectError::NotFound),
        (PathTarget::File, PathKind::File) => collect_canonical_paths(path, kind, recursive),
        (PathTarget::File, _) => Err(CollectError::NotAFile),
        (PathTarget::Directory, PathKind::File) => Err(CollectError::NotADirectory),
        (PathTarget::Directory, _) => collect_canonical_paths(path, kind, recursive),
    }
}

impl PathCollector {
    /// The directory to list next, taken off the pending list; `None` when
    /// the walk is over.
    pub fn next_dir(&mut self) -> (res: Option<String>)
        ensures
            final(self).paths == old(self).paths,
            final(self).recursive == old(self).recursive,
            old(self).pending@.len() == 0 ==> res is None && final(self).pending@ == old(self).pending@,
            old(self).pending@.len() > 0 ==> res == Some(old(self).pending@.last())
                && final(self).pending@ == old(self).pending@.drop_last(),
    {
        self.pending.pop()
    }

    /// Takes in the listing of a directory: its files join the result, in
    /// order, and (when the walk is recursive) its subdirectories join the
    /// pending list, in order. Other entries are skipped.
    pub fn visit(&mut self, entries: &Vec<DirEntry>)
        ensures
            final(self).recursive == old(self).recursive,
            view_texts(final(self).paths@) == view_texts(old(self).paths@) + listed_files(entries@),
            old(self).recursive ==> view_texts(final(self).pending@) == view_texts(
                old(self).pending@,
            ) + listed_dirs(entries@),
            !old(self).recursive ==> final(self).pending@ == old(self).pending@,
    {
        let mut i: usize = 0;
        while i < entries.len()
            invariant
                0 <= i <= entries.len(),
                self.recursive == old(self).recursive,
                view_texts(self.paths@) == view_texts(old(self).paths@) + listed_files(
                    entries@.take(i as int),
                ),
                old(self).recursive ==> view_texts(self.pending@) == view_texts(old(self).pending@)
                    + listed_dirs(entries@.take(i as int)),
                !old(self).recursive ==> self.pending@ == old(self).pending@,
            decreases entries.len() - i,
        {
            proof {
                assert(entries@.take(i + 1).drop_last() =~= entries@.take(i as int));
                assert(entries@.take(i + 1).last() == entries@[i as int]);
            }
            let entry = &entries[i];
            match entry.kind {
                EntryKind::File => {
                    let ghost before = self.paths@;
                    self.paths.push(entry.path.clone());
                    assert(view_texts(self.paths@) =~= view_texts(before).push(entry.path@));
                },
                EntryKind::Directory => {
                    if self.recursive {
                        let ghost before = self.pending@;
                        self.pending.push(entry.path.clone());
                        assert(view_texts(self.pending@) =~= view_texts(before).push(entry.path@));
                    }
                },
                EntryKind::Other => {},
            }
            i = i + 1;
        }
        assert(entries@.take(i as int) =~= entries@);
    }

    /// The canonical file paths found by the walk.
    pub fn into_paths(self) -> (res: Vec<String>)
        ensures
            res@ == self.paths@,
    {
        self.paths
    }
}

} // verus!
