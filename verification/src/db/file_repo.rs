use vstd::prelude::*;
use crate::db::database::{Database, DbError, DbView, next_id, lemma_view_files_push, lemma_view_files_remove, lemma_wf_with_file, lemma_ids_valid_remove, lemma_wf_without_file, view_files};
use crate::db::links::{retain_unmatched, PairFilter, pair_matches};
use crate::domain::file::{File, FileView};

verus! {

/// The id that the next tracked file receives, if any is left.
fn next_file_id(db: &Database) -> (r: Option<i64>)
    ensures
        r == next_id(db@.file_ids()),
{
    let n = db.files.len();
    if n == 0 {
        Some(1)
    } else {
        let last = db.files[n - 1].id;
        assert(db@.file_ids().last() == last);
        if last == i64::MAX {
            None
        } else {
            Some(last + 1)
        }
    }
}

/// The position of the file with this id, if it is tracked.
fn position_of_file(db: &Database, file_id: i64) -> (r: Option<usize>)
    ensures
        match r {
            Some(i) => i < db.files.len() && db.files@[i as int].id == file_id,
            None => !db@.has_file(file_id),
        },
{
    let mut i: usize = 0;
    while i < db.files.len()
        invariant
            0 <= i <= db.files.len(),
            forall|k: int| 0 <= k < i ==> #[trigger] db.files@[k].id != file_id,
        decreases db.files.len() - i,
    {
        if db.files[i].id == file_id {
            return Some(i);
        }
        i = i + 1;
    }
    assert forall|k: int| 0 <= k < db@.file_ids().len() implies #[trigger] db@.file_ids()[k] != file_id by {
        assert(db@.file_ids()[k] == db.files@[k].id);
    }
    None
}

/// Starts tracking a file by its path. A path that is tracked already is
/// ignored (`Ok(None)`); otherwise the file gets the next id of the table.
pub fn insert_file(db: &mut Database, path: &str, created_at: i64) -> (res: Result<
    Option<i64>,
    DbError,
>)
    requires
        old(db).wf(),
    ensures
        final(db).wf(),
        old(db)@.has_path(path@) ==> res == Ok::<Option<i64>, DbError>(None) && final(db)@ == old(db)@,
        !old(db)@.has_path(path@) ==> match next_id(old(db)@.file_ids()) {
            Some(id) => res == Ok::<Option<i64>, DbError>(Some(id)) && final(db)@ == old(db)@.with_file(FileView { id, path: path@, created_at }),
            None => res == Err::<Option<i64>, DbError>(DbError::Full) && final(db)@ == old(db)@,
        },
{
    let owned = path.to_owned();
    let mut i: usize = 0;
    while i < db.files.len()
        invariant
            0 <= i <= db.files.len(),
            owned@ == path@,
            db@ == old(db)@,
            db.wf(),
            forall|k: int| 0 <= k < i ==> #[trigger] db@.files[k].path != path@,
        decreases db.files.len() - i,
    {
        if db.files[i].path == owned {
            assert(db@.files[i as int].path == path@);
            return Ok(None);
        }
        i = i + 1;
    }
    match next_file_id(db) {
        None => Err(DbError::Full),
        Some(id) => {
            let ghost before = db@;
            let file = File { id, path: owned, created_at };
            db.files.push(file);
            proof {
                lemma_view_files_push(old(db).files@, file);
                assert(db@ =~= before.with_file(FileView { id, path: path@, created_at }));
                lemma_wf_with_file(before, FileView { id, path: path@, created_at });
            }
            Ok(Some(id))
        },
    }
}

/// Stops tracking the file with this id, with its group links, and
/// returns its path; `None` when no file has this id.
pub fn delete_file(db: &mut Database, file_id: i64) -> (res: Option<String>)
    requires
        old(db).wf(),
    ensures
        final(db).wf(),
        match res {
            None => !old(db)@.has_file(file_id) && final(db)@ == old(db)@,
            Some(path) => exists|i: int|
                0 <= i < old(db)@.files.len() && #[trigger] old(db)@.files[i].id == file_id
                    && old(db)@.files[i].path == path@ && final(db)@ == old(db)@.without_file(i),
        },
{
    match position_of_file(db, file_id) {
        None => None,
        Some(i) => {
            let ghost before = db@;
            let file = db.files.remove(i);
            let links = retain_unmatched(&db.group_files, PairFilter::Second(file_id));
            db.group_files = links;
            proof {
                lemma_view_files_remove(old(db).files@, i as int);
                assert(db@.group_files =~= before.group_files.filter(
                    |p: (i64, i64)| p.1 != file_id,
                ));
                assert(db@ =~= before.without_file(i as int));
                lemma_wf_without_file(before, i as int);
            }
            Some(file.path)
        },
    }
}

/// The file with this id, if it is tracked.
pub fn fetch_file(db: &Database, file_id: i64) -> (res: Option<File>)
    requires
        db.wf(),
    ensures
        match res {
            None => !db@.has_file(file_id),
            Some(f) => f.id == file_id && db@.files.contains(f@),
        },
{
    match position_of_file(db, file_id) {
        None => None,
        Some(i) => {
            let f = db.files[i].clone();
            assert(db@.files[i as int] == f@);
            Some(f)
        },
    }
}

/// Every tracked file, in ascending id order.
pub fn fetch_files(db: &Database) -> (res: Vec<File>)
    requires
        db.wf(),
    ensures
        view_files(res@) == db@.files,
{
    let mut res: Vec<File> = Vec::new();
    let mut i: usize = 0;
    while i < db.files.len()
        invariant
            0 <= i <= db.files.len(),
            view_files(res@) == db@.files.take(i as int),
        decreases db.files.len() - i,
    {
        let f = db.files[i].clone();
        proof {
            lemma_view_files_push(res@, f);
        }
        res.push(f);
        assert(db@.files.take(i + 1) =~= db@.files.take(i as int).push(f@));
        i = i + 1;
    }
    assert(db@.files.take(i as int) =~= db@.files);
    res
}

/// The file tracked under exactly this path, if any.
pub fn find_file_by_path(db: &Database, path: &str) -> (res: Option<File>)
    requires
        db.wf(),
    ensures
        match res {
            None => !db@.has_path(path@),
            Some(f) => f.path@ == path@ && db@.files.contains(f@),
        },
{
    let owned = path.to_owned();
    let mut i: usize = 0;
    while i < db.files.len()
        invariant
            0 <= i <= db.files.len(),
            owned@ == path@,
            forall|k: int| 0 <= k < i ==> #[trigger] db@.files[k].path != path@,
        decreases db.files.len() - i,
    {
        if db.files[i].path == owned {
            let f = db.files[i].clone();
            assert(db@.files[i as int] == f@);
            return Some(f);
        }
        i = i + 1;
    }
    None
}

/// Whether a file with this id is tracked.
pub fn file_exists(db: &Database, file_id: i64) -> (res: bool)
    ensures
        res == db@.has_file(file_id),
{
    match position_of_file(db, file_id) {
        Some(i) => {
            assert(db@.file_ids()[i as int] == file_id);
            true
        },
        None => false,
    }
}

} // verus!
