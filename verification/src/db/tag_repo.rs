use vstd::prelude::*;
use crate::db::database::{
    Database,
    DbError,
    next_id,
    nocase_eq,
    lemma_view_tags_push,
    lemma_view_tags_remove,
    lemma_wf_with_tag,
    lemma_wf_without_tag,
    view_tags,
};
use crate::db::links::{retain_unmatched, PairFilter};
use crate::domain::tag::{Tag, TagView};
use crate::utils::text::nocase_equal;

verus! {

/// The id that the next tag receives, if any is left.
fn next_tag_id(db: &Database) -> (r: Option<i64>)
    ensures
        r == next_id(db@.tag_ids()),
{
    let n = db.tags.len();
    if n == 0 {
        Some(1)
    } else {
        let last = db.tags[n - 1].id;
        assert(db@.tag_ids().last() == last);
        if last == i64::MAX {
            None
        } else {
            Some(last + 1)
        }
    }
}

/// The position of the tag with this id, if it exists.
fn position_of_tag(db: &Database, tag_id: i64) -> (r: Option<usize>)
    ensures
        match r {
            Some(i) => i < db.tags.len() && db.tags@[i as int].id == tag_id,
            None => !db@.has_tag(tag_id),
        },
{
    let mut i: usize = 0;
    while i < db.tags.len()
        invariant
            0 <= i <= db.tags.len(),
            forall|k: int| 0 <= k < i ==> #[trigger] db.tags@[k].id != tag_id,
        decreases db.tags.len() - i,
    {
        if db.tags[i].id == tag_id {
            return Some(i);
        }
        i = i + 1;
    }
    assert forall|k: int| 0 <= k < db@.tag_ids().len() implies #[trigger] db@.tag_ids()[k] != tag_id by {
        assert(db@.tag_ids()[k] == db.tags@[k].id);
    }
    None
}

/// The position of the tag whose name equals this one up to ASCII case.
fn position_of_tag_name(db: &Database, name: &str) -> (r: Option<usize>)
    ensures
        match r {
            Some(i) => i < db.tags.len() && nocase_eq(db@.tags[i as int].name, name@),
            None => !db@.has_tag_name(name@),
        },
{
    let mut i: usize = 0;
    while i < db.tags.len()
        invariant
            0 <= i <= db.tags.len(),
            forall|k: int| 0 <= k < i ==> !nocase_eq(#[trigger] db@.tags[k].name, name@),
        decreases db.tags.len() - i,
    {
        if nocase_equal(db.tags[i].name.as_str(), name) {
            assert(db@.tags[i as int].name == db.tags@[i as int].name@);
            return Some(i);
        }
        assert(db@.tags[i as int].name == db.tags@[i as int].name@);
        i = i + 1;
    }
    None
}

/// Creates a tag. A name that some tag has already, up to the case of
/// ASCII letters, is ignored (`Ok(None)`); otherwise the tag gets the next
/// id of the table.
pub fn insert_tag(db: &mut Database, tag_name: &str) -> (res: Result<Option<i64>, DbError>)
    requires
        old(db).wf(),
    ensures
        final(db).wf(),
        old(db)@.has_tag_name(tag_name@) ==> res == Ok::<Option<i64>, DbError>(None) && final(db)@ == old(db)@,
        !old(db)@.has_tag_name(tag_name@) ==> match next_id(old(db)@.tag_ids()) {
            Some(id) => res == Ok::<Option<i64>, DbError>(Some(id)) && final(db)@ == old(db)@.with_tag(TagView { id, name: tag_name@ }),
            None => res == Err::<Option<i64>, DbError>(DbError::Full) && final(db)@ == old(db)@,
        },
{
    match position_of_tag_name(db, tag_name) {
        Some(_) => Ok(None),
        None => match next_tag_id(db) {
            None => Err(DbError::Full),
            Some(id) => {
                let ghost before = db@;
                let tag = Tag { id, name: tag_name.to_owned() };
                db.tags.push(tag);
                proof {
                    lemma_view_tags_push(old(db).tags@, tag);
                    assert(db@ =~= before.with_tag(TagView { id, name: tag_name@ }));
                    lemma_wf_with_tag(before, TagView { id, name: tag_name@ });
                }
                Ok(Some(id))
            },
        },
    }
}

/// Deletes the tag with this id, with its links to groups, and returns its
/// name; `None` when no tag has this id.
pub fn delete_tag(db: &mut Database, tag_id: i64) -> (res: Option<String>)
    requires
        old(db).wf(),
    ensures
        final(db).wf(),
        match res {
            None => !old(db)@.has_tag(tag_id) && final(db)@ == old(db)@,
            Some(name) => exists|i: int|
                0 <= i < old(db)@.tags.len() && #[trigger] old(db)@.tags[i].id == tag_id
                    && old(db)@.tags[i].name == name@ && final(db)@ == old(db)@.without_tag(i),
        },
{
    match position_of_tag(db, tag_id) {
        None => None,
        Some(i) => {
            let ghost before = db@;
            let tag = db.tags.remove(i);
            let links = retain_unmatched(&db.group_tags, PairFilter::Second(tag_id));
            db.group_tags = links;
            proof {
                lemma_view_tags_remove(old(db).tags@, i as int);
                assert(db@.group_tags =~= before.group_tags.filter(|p: (i64, i64)| p.1 != tag_id));
                assert(db@ =~= before.without_tag(i as int));
                lemma_wf_without_tag(before, i as int);
            }
            Some(tag.name)
        },
    }
}

/// The tag with this id, if it exists.
pub fn fetch_tag(db: &Database, tag_id: i64) -> (res: Option<Tag>)
    requires
        db.wf(),
    ensures
        match res {
            None => !db@.has_tag(tag_id),
            Some(t) => t.id == tag_id && db@.tags.contains(t@),
        },
{
    match position_of_tag(db, tag_id) {
        None => None,
        Some(i) => {
            let t = db.tags[i].clone();
            assert(db@.tags[i as int] == t@);
            Some(t)
        },
    }
}

/// Every tag, in ascending id order.
pub fn fetch_tags(db: &Database) -> (res: Vec<Tag>)
    requires
        db.wf(),
    ensures
        view_tags(res@) == db@.tags,
{
    let mut res: Vec<Tag> = Vec::new();
    let mut i: usize = 0;
    while i < db.tags.len()
        invariant
            0 <= i <= db.tags.len(),
            view_tags(res@) == db@.tags.take(i as int),
        decreases db.tags.len() - i,
    {
        let t = db.tags[i].clone();
        proof {
            lemma_view_tags_push(res@, t);
        }
        res.push(t);
        assert(db@.tags.take(i + 1) =~= db@.tags.take(i as int).push(t@));
        i = i + 1;
    }
    assert(db@.tags.take(i as int) =~= db@.tags);
    res
}

/// The tag whose name equals this one up to the case of ASCII letters, if
/// any.
pub fn find_tag_by_name(db: &Database, tag_name: &str) -> (res: Option<Tag>)
    requires
        db.wf(),
    ensures
        match res {
            None => !db@.has_tag_name(tag_name@),
            Some(t) => nocase_eq(t.name@, tag_name@) && db@.tags.contains(t@),
        },
{
    match position_of_tag_name(db, tag_name) {
        None => None,
        Some(i) => {
            let t = db.tags[i].clone();
            assert(db@.tags[i as int] == t@);
            Some(t)
        },
    }
}

/// Whether a tag with this id exists.
pub fn tag_exists(db: &Database, tag_id: i64) -> (res: bool)
    ensures
        res == db@.has_tag(tag_id),
{
    match position_of_tag(db, tag_id) {
        Some(i) => {
            assert(db@.tag_ids()[i as int] == tag_id);
            true
        },
        None => false,
    }
}

} // verus!
