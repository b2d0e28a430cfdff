use vstd::prelude::*;
use crate::db::database::{
    Database,
    DbError,
    DbView,
    eq_up_to_times,
    next_id,
    lemma_eq_up_to_times,
    lemma_eq_up_to_times_refl,
    lemma_eq_up_to_times_with_group,
    view_files,
    view_groups,
    view_tags,
};
use crate::db::group_repo;
use crate::db::hierarchy::closes_cycle;
use crate::domain::file::File;
use crate::domain::group::{Group, GroupView};
use crate::domain::tag::Tag;
use crate::utils::time;

use crate::db::rows::{rows_kept, rows_stay};

verus! {

/// The description a group is stored with: the given one, or the empty
/// text.
pub open spec fn description_or_empty(description: Option<Seq<char>>) -> Seq<char> {
    match description {
        Some(d) => d,
        None => Seq::empty(),
    }
}

/// Creating a group in `v`, with its creation time left at 0: the database
/// after and the outcome.
pub open spec fn create_one(v: DbView, name: Seq<char>, description: Seq<char>) -> (
    DbView,
    Result<Option<i64>, DbError>,
) {
    match next_id(v.group_ids()) {
        Some(id) => (
            v.with_group(GroupView { id, name, created_at: 0, description }),
            Ok(Some(id)),
        ),
        None => (v, Err(DbError::Full)),
    }
}

pub open spec fn view_opt_text(s: Option<&str>) -> Option<Seq<char>> {
    match s {
        Some(t) => Some(t@),
        None => None,
    }
}

/// Creates a group stamped with the current time; a missing description is
/// stored as the empty text.
pub fn create_group(db: &mut Database, group_name: &str, description: Option<&str>) -> (res: Result<
    Option<i64>,
    DbError,
>)
    requires
        old(db).wf(),
    ensures
        final(db).wf(),
        res == create_one(old(db)@, group_name@, description_or_empty(view_opt_text(description))).1,
        eq_up_to_times(
            final(db)@,
            create_one(old(db)@, group_name@, description_or_empty(view_opt_text(description))).0,
        ),
        !(res matches Ok(Some(_))) ==> final(db)@ == old(db)@,
        rows_stay(old(db)@, final(db)@),
        rows_kept(old(db)@, final(db)@),
{
    let d: &str = match description {
        Some(d) => d,
        None => "",
    };
    proof {
        reveal_strlit("");
        assert(d@ == description_or_empty(view_opt_text(description)));
    }
    let t = time::now();
    let res = group_repo::insert_group(db, group_name, t, d);
    proof {
        lemma_eq_up_to_times_refl(old(db)@);
        if let Ok(Some(id)) = res {
            crate::db::rows::lemma_rows_with_group(
                old(db)@,
                GroupView { id, name: group_name@, created_at: t, description: d@ },
            );
            lemma_eq_up_to_times_with_group(
                old(db)@,
                old(db)@,
                GroupView { id, name: group_name@, created_at: t, description: d@ },
                GroupView { id, name: group_name@, created_at: 0, description: d@ },
            );
        }
    }
    res
}

/// Deletes a group with every link that names it.
pub fn delete_group(db: &mut Database, group_id: i64)
    requires
        old(db).wf(),
    ensures
        final(db).wf(),
        !old(db)@.has_group(group_id) ==> final(db)@ == old(db)@,
        old(db)@.has_group(group_id) ==> exists|i: int|
            0 <= i < old(db)@.groups.len() && #[trigger] old(db)@.groups[i].id == group_id
                && final(db)@ == old(db)@.without_group(i),
{
    group_repo::delete_group(db, group_id)
}

/// The group with this id, if it exists.
pub fn get_group(db: &Database, group_id: i64) -> (res: Option<Group>)
    requires
        db.wf(),
    ensures
        match res {
            None => !db@.has_group(group_id),
            Some(g) => g.id == group_id && db@.groups.contains(g@),
        },
{
    group_repo::fetch_group(db, group_id)
}

/// Every group, in ascending id order.
pub fn fetch_groups(db: &Database) -> (res: Vec<Group>)
    requires
        db.wf(),
    ensures
        view_groups(res@) == db@.groups,
{
    group_repo::fetch_groups(db)
}

/// Links a file to a group; both must exist.
pub fn add_file(db: &mut Database, group_id: i64, file_id: i64) -> (res: Result<(), DbError>)
    requires
        old(db).wf(),
    ensures
        final(db).wf(),
        res is Ok <==> old(db)@.has_group(group_id) && old(db)@.has_file(file_id),
        res is Ok ==> final(db)@ == (DbView {
            group_files: old(db)@.group_files.insert((group_id, file_id)),
            ..old(db)@
        }),
        res is Err ==> res == Err::<(), DbError>(DbError::ForeignKeyViolation) && final(db)@ == old(db)@,
{
    group_repo::insert_file(db, group_id, file_id)
}

/// Linking the files to a group one after the other: the database after
/// and the outcome, which is the first error. Links made before an error
/// stay.
pub open spec fn add_all(v: DbView, group_id: i64, file_ids: Seq<i64>) -> (DbView, Result<(), DbError>)
    decreases file_ids.len(),
{
    if file_ids.len() == 0 {
        (v, Ok(()))
    } else {
        let (w, r) = add_all(v, group_id, file_ids.drop_last());
        if r is Err {
            (w, r)
        } else if w.has_group(group_id) && w.has_file(file_ids.last()) {
            (DbView { group_files: w.group_files.insert((group_id, file_ids.last())), ..w }, Ok(()))
        } else {
            (w, Err(DbError::ForeignKeyViolation))
        }
    }
}

/// Linking files to a group changes no row.
pub proof fn lemma_add_all_keeps_rows(v: DbView, group_id: i64, file_ids: Seq<i64>)
    ensures
        add_all(v, group_id, file_ids).0.files == v.files,
        add_all(v, group_id, file_ids).0.groups == v.groups,
        add_all(v, group_id, file_ids).0.tags == v.tags,
    decreases file_ids.len(),
{
    if file_ids.len() > 0 {
        lemma_add_all_keeps_rows(v, group_id, file_ids.drop_last());
    }
}

proof fn lemma_add_all_err_sticky(v: DbView, group_id: i64, ids: Seq<i64>, k: int)
    requires
        0 <= k <= ids.len(),
        add_all(v, group_id, ids.take(k)).1 is Err,
    ensures
        add_all(v, group_id, ids) == add_all(v, group_id, ids.take(k)),
    decreases ids.len() - k,
{
    if k < ids.len() {
        assert(ids.take(k + 1).drop_last() =~= ids.take(k));
        lemma_add_all_err_sticky(v, group_id, ids, k + 1);
    } else {
        assert(ids.take(k) =~= ids);
    }
}

/// Links the files to a group one after the other, stopping at the first
/// that fails; earlier links stay.
pub fn add_files(db: &mut Database, group_id: i64, file_ids: &[i64]) -> (res: Result<(), DbError>)
    requires
        old(db).wf(),
    ensures
        final(db).wf(),
        (final(db)@, res) == add_all(old(db)@, group_id, file_ids@),
{
    let mut i: usize = 0;
    while i < file_ids.len()
        invariant
            0 <= i <= file_ids.len(),
            db.wf(),
            (db@, Ok::<(), DbError>(())) == add_all(old(db)@, group_id, file_ids@.take(i as int)),
        decreases file_ids.len() - i,
    {
        proof {
            assert(file_ids@.take(i + 1).drop_last() =~= file_ids@.take(i as int));
            assert(file_ids@.take(i + 1).last() == file_ids@[i as int]);
        }
        let r = add_file(db, group_id, file_ids[i]);
        if r.is_err() {
            proof {
                lemma_add_all_err_sticky(old(db)@, group_id, file_ids@, i + 1);
            }
            return r;
        }
        i = i + 1;
    }
    assert(file_ids@.take(i as int) =~= file_ids@);
    Ok(())
}

/// Unlinks a file from a group.
pub fn remove_file(db: &mut Database, group_id: i64, file_id: i64)
    requires
        old(db).wf(),
    ensures
        final(db).wf(),
        final(db)@ == (DbView {
            group_files: old(db)@.group_files.remove((group_id, file_id)),
            ..old(db)@
        }),
{
    group_repo::delete_file(db, group_id, file_id)
}

/// The files of a group, in ascending id order.
pub fn fetch_files(db: &Database, group_id: i64) -> (res: Vec<File>)
    requires
        db.wf(),
    ensures
        view_files(res@) == db@.files_in_group(group_id),
{
    group_repo::fetch_files(db, group_id)
}

/// Whether a file is linked to a group.
pub fn has_file(db: &Database, group_id: i64, file_id: i64) -> (res: bool)
    ensures
        res == db@.group_files.contains((group_id, file_id)),
{
    group_repo::has_file(db, group_id, file_id)
}

/// Whether making the child a child of the parent would close a cycle.
pub fn would_create_cycle(db: &Database, parent_group_id: i64, child_group_id: i64) -> (res: bool)
    ensures
        res == closes_cycle(db@.group_children, parent_group_id, child_group_id),
{
    group_repo::would_create_cycle(db, parent_group_id, child_group_id)
}

/// Makes a group the child of another; both must exist.
pub fn add_child(db: &mut Database, parent_group_id: i64, child_group_id: i64) -> (res: Result<
    (),
    DbError,
>)
    requires
        old(db).wf(),
    ensures
        final(db).wf(),
        res is Ok <==> old(db)@.has_group(parent_group_id) && old(db)@.has_group(child_group_id),
        res is Ok ==> final(db)@ == (DbView {
            group_children: old(db)@.group_children.insert((parent_group_id, child_group_id)),
            ..old(db)@
        }),
        res is Err ==> res == Err::<(), DbError>(DbError::ForeignKeyViolation) && final(db)@ == old(db)@,
{
    group_repo::add_child(db, parent_group_id, child_group_id)
}

/// Removes the link between a parent and a child group.
pub fn remove_child(db: &mut Database, parent_group_id: i64, child_group_id: i64)
    requires
        old(db).wf(),
    ensures
        final(db).wf(),
        final(db)@ == (DbView {
            group_children: old(db)@.group_children.remove((parent_group_id, child_group_id)),
            ..old(db)@
        }),
{
    group_repo::delete_child(db, parent_group_id, child_group_id)
}

/// The children of a group, in ascending id order.
pub fn fetch_children(db: &Database, parent_group_id: i64) -> (res: Vec<Group>)
    requires
        db.wf(),
    ensures
        view_groups(res@) == db@.children_of(parent_group_id),
{
    group_repo::fetch_children(db, parent_group_id)
}

/// Whether a group is a direct child of another.
pub fn has_child(db: &Database, parent_group_id: i64, child_group_id: i64) -> (res: bool)
    ensures
        res == db@.group_children.contains((parent_group_id, child_group_id)),
{
    group_repo::has_child(db, parent_group_id, child_group_id)
}

/// Gives a group a tag; both must exist.
pub fn add_tag(db: &mut Database, group_id: i64, tag_id: i64) -> (res: Result<(), DbError>)
    requires
        old(db).wf(),
    ensures
        final(db).wf(),
        res is Ok <==> old(db)@.has_group(group_id) && old(db)@.has_tag(tag_id),
        res is Ok ==> final(db)@ == (DbView {
            group_tags: old(db)@.group_tags.insert((group_id, tag_id)),
            ..old(db)@
        }),
        res is Err ==> res == Err::<(), DbError>(DbError::ForeignKeyViolation) && final(db)@ == old(db)@,
{
    group_repo::add_tag(db, group_id, tag_id)
}

/// Takes a tag from a group.
pub fn remove_tag(db: &mut Database, group_id: i64, tag_id: i64)
    requires
        old(db).wf(),
    ensures
        final(db).wf(),
        final(db)@ == (DbView {
            group_tags: old(db)@.group_tags.remove((group_id, tag_id)),
            ..old(db)@
        }),
{
    group_repo::delete_tag(db, group_id, tag_id)
}

/// The tags of a group, in ascending id order.
pub fn fetch_tags(db: &Database, group_id: i64) -> (res: Vec<Tag>)
    requires
        db.wf(),
    ensures
        view_tags(res@) == db@.tags_of_group(group_id),
{
    group_repo::fetch_tags(db, group_id)
}

/// Whether a group carries a tag.
pub fn has_tag(db: &Database, group_id: i64, tag_id: i64) -> (res: bool)
    ensures
        res == db@.group_tags.contains((group_id, tag_id)),
{
    group_repo::has_tag(db, group_id, tag_id)
}

/// Linking files to a group acts alike on databases that agree up to
/// creation times.
pub proof fn lemma_add_all_up_to_times(a: DbView, b: DbView, group_id: i64, file_ids: Seq<i64>)
    requires
        eq_up_to_times(a, b),
    ensures
        eq_up_to_times(add_all(a, group_id, file_ids).0, add_all(b, group_id, file_ids).0),
        add_all(a, group_id, file_ids).1 == add_all(b, group_id, file_ids).1,
    decreases file_ids.len(),
{
    if file_ids.len() > 0 {
        lemma_add_all_up_to_times(a, b, group_id, file_ids.drop_last());
        let wa = add_all(a, group_id, file_ids.drop_last()).0;
        let wb = add_all(b, group_id, file_ids.drop_last()).0;
        lemma_eq_up_to_times(wa, wb);
    }
}

} // verus!
