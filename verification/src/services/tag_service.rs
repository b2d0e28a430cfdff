use vstd::prelude::*;
use crate::db::database::{Database, DbError, DbView, next_id, nocase_eq, view_tags};
use crate::db::tag_repo;
use crate::domain::tag::{Tag, TagView};

verus! {

/// Creating a tag named `name` in `v`: the database after and the outcome.
/// A name that some tag has already, up to ASCII case, is ignored.
pub open spec fn create_tag_one(v: DbView, name: Seq<char>) -> (DbView, Result<Option<i64>, DbError>) {
    if v.has_tag_name(name) {
        (v, Ok(None))
    } else {
        match next_id(v.tag_ids()) {
            Some(id) => (v.with_tag(TagView { id, name }), Ok(Some(id))),
            None => (v, Err(DbError::Full)),
        }
    }
}

/// Creates a tag. A name that some tag has already, up to the case of
/// ASCII letters, is ignored (`Ok(None)`).
pub fn create_tag(db: &mut Database, tag_name: &str) -> (res: Result<Option<i64>, DbError>)
    requires
        old(db).wf(),
    ensures
        final(db).wf(),
        old(db)@.has_tag_name(tag_name@) ==> res == Ok::<Option<i64>, DbError>(None) && final(db)@
            == old(db)@,
        !old(db)@.has_tag_name(tag_name@) ==> match next_id(old(db)@.tag_ids()) {
            Some(id) => res == Ok::<Option<i64>, DbError>(Some(id)) && final(db)@ == old(db)@.with_tag(
                TagView { id, name: tag_name@ },
            ),
            None => res == Err::<Option<i64>, DbError>(DbError::Full) && final(db)@ == old(db)@,
        },
{
    tag_repo::insert_tag(db, tag_name)
}

/// Deletes a tag and takes it from every group; returns its name, or
/// `None` when no tag has this id.
pub fn delete_tag(db: &mut Database, tag_id: i64) -> (res: Option<String>)
    requires
        old(db).wf(),
    ensures
        final(db).wf(),
        match res {
            None => !old(db)@.has_tag(tag_id) && final(db)@ == old(db)@,
            Some(name) => exists|i: int|
                0 <= i < old(db)@.tags.len() && #[trigger] old(db)@.tags[i].id == tag_id
                    && old(db)@.tags[i].name == name@ && final(db)@ == old(db)@.without_tag(i),
        },
{
    tag_repo::delete_tag(db, tag_id)
}

/// The tag with this id, if it exists.
pub fn get_tag(db: &Database, tag_id: i64) -> (res: Option<Tag>)
    requires
        db.wf(),
    ensures
        match res {
            None => !db@.has_tag(tag_id),
            Some(t) => t.id == tag_id && db@.tags.contains(t@),
        },
{
    tag_repo::fetch_tag(db, tag_id)
}

/// Every tag, in ascending id order.
pub fn fetch_tags(db: &Database) -> (res: Vec<Tag>)
    requires
        db.wf(),
    ensures
        view_tags(res@) == db@.tags,
{
    tag_repo::fetch_tags(db)
}

/// The tag whose name equals this one up to the case of ASCII letters.
pub fn find_tag_by_name(db: &Database, tag_name: &str) -> (res: Option<Tag>)
    requires
        db.wf(),
    ensures
        match res {
            None => !db@.has_tag_name(tag_name@),
            Some(t) => nocase_eq(t.name@, tag_name@) && db@.tags.contains(t@),
        },
{
    tag_repo::find_tag_by_name(db, tag_name)
}

} // verus!
