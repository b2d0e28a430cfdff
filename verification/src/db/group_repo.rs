use vstd::prelude::*;
use crate::db::database::{
    Database,
    DbError,
    DbView,
    next_id,
    named,
    lemma_view_files_push,
    lemma_view_groups_push,
    lemma_view_tags_push,
    lemma_view_groups_remove,
    lemma_wf_with_group,
    lemma_wf_without_group,
    view_files,
    view_groups,
    view_tags,
};
use crate::db::links::{contains_pair, insert_pair, remove_pair, retain_unmatched, PairFilter};
use crate::db::file_repo::file_exists;
use crate::db::tag_repo::tag_exists;
use crate::db::hierarchy::{closes_cycle, descends, edge_at, is_walk, reaches, lemma_reaches_then_edge};
use crate::domain::file::File;
use crate::domain::group::{Group, GroupView};
use crate::domain::tag::Tag;

verus! {

/// The id that the next group receives, if any is left.
fn next_group_id(db: &Database) -> (r: Option<i64>)
    ensures
        r == next_id(db@.group_ids()),
{
    let n = db.groups.len();
    if n == 0 {
        Some(1)
    } else {
        let last = db.groups[n - 1].id;
        assert(db@.group_ids().last() == last);
        if last == i64::MAX {
            None
        } else {
            Some(last + 1)
        }
    }
}

/// The position of the group with this id, if it exists.
fn position_of_group(db: &Database, group_id: i64) -> (r: Option<usize>)
    ensures
        match r {
            Some(i) => i < db.groups.len() && db.groups@[i as int].id == group_id,
            None => !db@.has_group(group_id),
        },
{
    let mut i: usize = 0;
    while i < db.groups.len()
        invariant
            0 <= i <= db.groups.len(),
            forall|k: int| 0 <= k < i ==> #[trigger] db.groups@[k].id != group_id,
        decreases db.groups.len() - i,
    {
        if db.groups[i].id == group_id {
            return Some(i);
        }
        i = i + 1;
    }
    assert forall|k: int| 0 <= k < db@.group_ids().len() implies #[trigger] db@.group_ids()[k]
        != group_id by {
        assert(db@.group_ids()[k] == db.groups@[k].id);
    }
    None
}

/// Whether a group with this id exists.
pub fn group_exists(db: &Database, group_id: i64) -> (res: bool)
    ensures
        res == db@.has_group(group_id),
{
    match position_of_group(db, group_id) {
        Some(i) => {
            assert(db@.group_ids()[i as int] == group_id);
            true
        },
        None => false,
    }
}

/// Creates a group; group names need not be unique. The group gets the
/// next id of the table.
pub fn insert_group(
    db: &mut Database,
    group_name: &str,
    created_at: i64,
    description: &str,
) -> (res: Result<Option<i64>, DbError>)
    requires
        old(db).wf(),
    ensures
        final(db).wf(),
        match next_id(old(db)@.group_ids()) {
            Some(id) => res == Ok::<Option<i64>, DbError>(Some(id)) && final(db)@ == old(db)@.with_group(
                GroupView { id, name: group_name@, created_at, description: description@ },
            ),
            None => res == Err::<Option<i64>, DbError>(DbError::Full) && final(db)@ == old(db)@,
        },
{
    match next_group_id(db) {
        None => Err(DbError::Full),
        Some(id) => {
            let ghost before = db@;
            let group = Group {
                id,
                name: group_name.to_owned(),
                created_at,
                description: description.to_owned(),
            };
            let ghost gv = group@;
            db.groups.push(group);
            proof {
                lemma_view_groups_push(old(db).groups@, group);
                assert(db@ =~= before.with_group(gv));
                lemma_wf_with_group(before, gv);
            }
            Ok(Some(id))
        },
    }
}

/// Deletes the group with this id together with every link that names it
/// (its files, its children, its parents and its tags). Deleting a group
/// that does not exist changes nothing.
pub fn delete_group(db: &mut Database, group_id: i64)
    requires
        old(db).wf(),
    ensures
        final(db).wf(),
        !old(db)@.has_group(group_id) ==> final(db)@ == old(db)@,
        old(db)@.has_group(group_id) ==> exists|i: int|
            0 <= i < old(db)@.groups.len() && #[trigger] old(db)@.groups[i].id == group_id
                && final(db)@ == old(db)@.without_group(i),
{
    match position_of_group(db, group_id) {
        None => {},
        Some(i) => {
            let ghost before = db@;
            let _ = db.groups.remove(i);
            let files = retain_unmatched(&db.group_files, PairFilter::First(group_id));
            db.group_files = files;
            let children = retain_unmatched(&db.group_children, PairFilter::Either(group_id));
            db.group_children = children;
            let tags = retain_unmatched(&db.group_tags, PairFilter::First(group_id));
            db.group_tags = tags;
            proof {
                lemma_view_groups_remove(old(db).groups@, i as int);
                assert(db@.group_files =~= before.group_files.filter(
                    |p: (i64, i64)| p.0 != group_id,
                ));
                assert(db@.group_children =~= before.group_children.filter(
                    |p: (i64, i64)| p.0 != group_id && p.1 != group_id,
                ));
                assert(db@.group_tags =~= before.group_tags.filter(
                    |p: (i64, i64)| p.0 != group_id,
                ));
                assert(db@ =~= before.without_group(i as int));
                lemma_wf_without_group(before, i as int);
                assert(before.groups[i as int].id == group_id);
                assert(before.group_ids()[i as int] == group_id);
            }
        },
    }
}

/// Every group, in ascending id order.
pub fn fetch_groups(db: &Database) -> (res: Vec<Group>)
    requires
        db.wf(),
    ensures
        view_groups(res@) == db@.groups,
{
    let mut res: Vec<Group> = Vec::new();
    let mut i: usize = 0;
    while i < db.groups.len()
        invariant
            0 <= i <= db.groups.len(),
            view_groups(res@) == db@.groups.take(i as int),
        decreases db.groups.len() - i,
    {
        let g = db.groups[i].clone();
        proof {
            lemma_view_groups_push(res@, g);
        }
        res.push(g);
        assert(db@.groups.take(i + 1) =~= db@.groups.take(i as int).push(g@));
        i = i + 1;
    }
    assert(db@.groups.take(i as int) =~= db@.groups);
    res
}

/// The id of the group with exactly this name: `Ok(None)` when there is
/// none and `Err(MoreThanOneRow)` when several groups have it.
pub fn find_group_id(db: &Database, group_name: &str) -> (res: Result<Option<i64>, DbError>)
    requires
        db.wf(),
    ensures
        db@.groups_named(group_name@).len() == 0 ==> res == Ok::<Option<i64>, DbError>(None),
        db@.groups_named(group_name@).len() == 1 ==> res == Ok::<Option<i64>, DbError>(
            Some(db@.groups_named(group_name@)[0].id),
        ),
        db@.groups_named(group_name@).len() > 1 ==> res == Err::<Option<i64>, DbError>(
            DbError::MoreThanOneRow,
        ),
{
    let owned = group_name.to_owned();
    let ghost pred = named(group_name@);
    let mut found: Option<i64> = None;
    let mut i: usize = 0;
    while i < db.groups.len()
        invariant
            0 <= i <= db.groups.len(),
            owned@ == group_name@,
            pred == named(group_name@),
            db@.groups.take(i as int).filter(pred).len() <= 1,
            found is None <==> db@.groups.take(i as int).filter(pred).len() == 0,
            found matches Some(id) ==> id == db@.groups.take(i as int).filter(pred)[0].id,
        decreases db.groups.len() - i,
    {
        let ghost prefix = db@.groups.take(i as int);
        proof {
            prefix.lemma_filter_push(db@.groups[i as int], pred);
            assert(db@.groups.take(i + 1) =~= prefix.push(db@.groups[i as int]));
        }
        if db.groups[i].name == owned {
            assert(pred(db@.groups[i as int]));
            if found.is_some() {
                assert(db@.groups.take(i + 1).filter(pred).len() == 2);
                proof {
                    lemma_filter_len_mono(db@.groups, i + 1, pred);
                }
                return Err(DbError::MoreThanOneRow);
            }
            found = Some(db.groups[i].id);
        } else {
            assert(!pred(db@.groups[i as int]));
        }
        i = i + 1;
    }
    assert(db@.groups.take(i as int) =~= db@.groups);
    Ok(found)
}

/// The filtered prefix of a sequence is never longer than the filtered
/// whole.
proof fn lemma_filter_len_mono(s: Seq<GroupView>, k: int, pred: spec_fn(GroupView) -> bool)
    requires
        0 <= k <= s.len(),
    ensures
        s.take(k).filter(pred).len() <= s.filter(pred).len(),
    decreases s.len() - k,
{
    if k < s.len() {
        lemma_filter_len_mono(s, k + 1, pred);
        s.take(k).lemma_filter_push(s[k], pred);
        assert(s.take(k + 1) =~= s.take(k).push(s[k]));
    } else {
        assert(s.take(k) =~= s);
    }
}

/// The group with this id, if it exists.
pub fn fetch_group(db: &Database, group_id: i64) -> (res: Option<Group>)
    requires
        db.wf(),
    ensures
        match res {
            None => !db@.has_group(group_id),
            Some(g) => g.id == group_id && db@.groups.contains(g@),
        },
{
    match position_of_group(db, group_id) {
        None => None,
        Some(i) => {
            let g = db.groups[i].clone();
            assert(db@.groups[i as int] == g@);
            Some(g)
        },
    }
}

/// Links a file to a group; a link that exists already is kept as it is.
/// Both the group and the file must exist.
pub fn insert_file(db: &mut Database, group_id: i64, file_id: i64) -> (res: Result<(), DbError>)
    requires
        old(db).wf(),
    ensures
        final(db).wf(),
        res is Ok <==> old(db)@.has_group(group_id) && old(db)@.has_file(file_id),
        res is Ok ==> final(db)@ == (DbView {
            group_files: old(db)@.group_files.insert((group_id, file_id)),
            ..old(db)@
        }),
        res is Err ==> res == Err::<(), DbError>(DbError::ForeignKeyViolation) && final(db)@ == old(db)@,
{
    if !group_exists(db, group_id) || !file_exists(db, file_id) {
        return Err(DbError::ForeignKeyViolation);
    }
    insert_pair(&mut db.group_files, group_id, file_id);
    Ok(())
}

/// Unlinks a file from a group.
pub fn delete_file(db: &mut Database, group_id: i64, file_id: i64)
    requires
        old(db).wf(),
    ensures
        final(db).wf(),
        final(db)@ == (DbView {
            group_files: old(db)@.group_files.remove((group_id, file_id)),
            ..old(db)@
        }),
{
    remove_pair(&mut db.group_files, group_id, file_id);
}

/// The files linked to a group, in ascending id order.
pub fn fetch_files(db: &Database, group_id: i64) -> (res: Vec<File>)
    requires
        db.wf(),
    ensures
        view_files(res@) == db@.files_in_group(group_id),
{
    let ghost pred = db@.file_in_group(group_id);
    let mut res: Vec<File> = Vec::new();
    let mut i: usize = 0;
    while i < db.files.len()
        invariant
            0 <= i <= db.files.len(),
            pred == db@.file_in_group(group_id),
            view_files(res@) == db@.files.take(i as int).filter(pred),
        decreases db.files.len() - i,
    {
        let ghost prefix = db@.files.take(i as int);
        proof {
            prefix.lemma_filter_push(db@.files[i as int], pred);
            assert(db@.files.take(i + 1) =~= prefix.push(db@.files[i as int]));
        }
        if contains_pair(&db.group_files, group_id, db.files[i].id) {
            let f = db.files[i].clone();
            proof {
                lemma_view_files_push(res@, f);
            }
            res.push(f);
        }
        i = i + 1;
    }
    assert(db@.files.take(i as int) =~= db@.files);
    res
}

/// Whether a file is linked to a group.
pub fn has_file(db: &Database, group_id: i64, file_id: i64) -> (res: bool)
    ensures
        res == db@.group_files.contains((group_id, file_id)),
{
    contains_pair(&db.group_files, group_id, file_id)
}

/// Makes a group the child of another; a link that exists already is kept
/// as it is. Both groups must exist. This does not look for cycles: see
/// [`would_create_cycle`].
pub fn add_child(db: &mut Database, parent_group_id: i64, child_group_id: i64) -> (res: Result<
    (),
    DbError,
>)
    requires
        old(db).wf(),
    ensures
        final(db).wf(),
        res is Ok <==> old(db)@.has_group(parent_group_id) && old(db)@.has_group(child_group_id),
        res is Ok ==> final(db)@ == (DbView {
            group_children: old(db)@.group_children.insert((parent_group_id, child_group_id)),
            ..old(db)@
        }),
        res is Err ==> res == Err::<(), DbError>(DbError::ForeignKeyViolation) && final(db)@ == old(db)@,
{
    if !group_exists(db, parent_group_id) || !group_exists(db, child_group_id) {
        return Err(DbError::ForeignKeyViolation);
    }
    insert_pair(&mut db.group_children, parent_group_id, child_group_id);
    Ok(())
}

/// Removes the link between a parent group and a child group.
pub fn delete_child(db: &mut Database, parent_group_id: i64, child_group_id: i64)
    requires
        old(db).wf(),
    ensures
        final(db).wf(),
        final(db)@ == (DbView {
            group_children: old(db)@.group_children.remove((parent_group_id, child_group_id)),
            ..old(db)@
        }),
{
    remove_pair(&mut db.group_children, parent_group_id, child_group_id);
}

/// The children of a group, in ascending id order.
pub fn fetch_children(db: &Database, parent_group_id: i64) -> (res: Vec<Group>)
    requires
        db.wf(),
    ensures
        view_groups(res@) == db@.children_of(parent_group_id),
{
    let ghost pred = db@.child_of(parent_group_id);
    let mut res: Vec<Group> = Vec::new();
    let mut i: usize = 0;
    while i < db.groups.len()
        invariant
            0 <= i <= db.groups.len(),
            pred == db@.child_of(parent_group_id),
            view_groups(res@) == db@.groups.take(i as int).filter(pred),
        decreases db.groups.len() - i,
    {
        let ghost prefix = db@.groups.take(i as int);
        proof {
            prefix.lemma_filter_push(db@.groups[i as int], pred);
            assert(db@.groups.take(i + 1) =~= prefix.push(db@.groups[i as int]));
        }
        if contains_pair(&db.group_children, parent_group_id, db.groups[i].id) {
            let g = db.groups[i].clone();
            proof {
                lemma_view_groups_push(res@, g);
            }
            res.push(g);
        }
        i = i + 1;
    }
    assert(db@.groups.take(i as int) =~= db@.groups);
    res
}

/// Whether a group is a direct child of another.
pub fn has_child(db: &Database, parent_group_id: i64, child_group_id: i64) -> (res: bool)
    ensures
        res == db@.group_children.contains((parent_group_id, child_group_id)),
{
    contains_pair(&db.group_children, parent_group_id, child_group_id)
}

/// Gives a group a tag; a link that exists already is kept as it is. Both
/// the group and the tag must exist.
pub fn add_tag(db: &mut Database, group_id: i64, tag_id: i64) -> (res: Result<(), DbError>)
    requires
        old(db).wf(),
    ensures
        final(db).wf(),
        res is Ok <==> old(db)@.has_group(group_id) && old(db)@.has_tag(tag_id),
        res is Ok ==> final(db)@ == (DbView {
            group_tags: old(db)@.group_tags.insert((group_id, tag_id)),
            ..old(db)@
        }),
        res is Err ==> res == Err::<(), DbError>(DbError::ForeignKeyViolation) && final(db)@ == old(db)@,
{
    if !group_exists(db, group_id) || !tag_exists(db, tag_id) {
        return Err(DbError::ForeignKeyViolation);
    }
    insert_pair(&mut db.group_tags, group_id, tag_id);
    Ok(())
}

/// Takes a tag from a group.
pub fn delete_tag(db: &mut Database, group_id: i64, tag_id: i64)
    requires
        old(db).wf(),
    ensures
        final(db).wf(),
        final(db)@ == (DbView {
            group_tags: old(db)@.group_tags.remove((group_id, tag_id)),
            ..old(db)@
        }),
{
    remove_pair(&mut db.group_tags, group_id, tag_id);
}

/// The tags of a group, in ascending id order.
pub fn fetch_tags(db: &Database, group_id: i64) -> (res: Vec<Tag>)
    requires
        db.wf(),
    ensures
        view_tags(res@) == db@.tags_of_group(group_id),
{
    let ghost pred = db@.tag_of_group(group_id);
    let mut res: Vec<Tag> = Vec::new();
    let mut i: usize = 0;
    while i < db.tags.len()
        invariant
            0 <= i <= db.tags.len(),
            pred == db@.tag_of_group(group_id),
            view_tags(res@) == db@.tags.take(i as int).filter(pred),
        decreases db.tags.len() - i,
    {
        let ghost prefix = db@.tags.take(i as int);
        proof {
            prefix.lemma_filter_push(db@.tags[i as int], pred);
            assert(db@.tags.take(i + 1) =~= prefix.push(db@.tags[i as int]));
        }
        if contains_pair(&db.group_tags, group_id, db.tags[i].id) {
            let t = db.tags[i].clone();
            proof {
                lemma_view_tags_push(res@, t);
            }
            res.push(t);
        }
        i = i + 1;
    }
    assert(db@.tags.take(i as int) =~= db@.tags);
    res
}

/// Whether a group carries a tag.
pub fn has_tag(db: &Database, group_id: i64, tag_id: i64) -> (res: bool)
    ensures
        res == db@.group_tags.contains((group_id, tag_id)),
{
    contains_pair(&db.group_tags, group_id, tag_id)
}

/// The groups that a search from `c` may meet: `c` and every group that
/// some link leads to.
spec fn search_universe(c: i64, links: Seq<(i64, i64)>) -> Seq<i64> {
    seq![c] + links.map_values(|e: (i64, i64)| e.1)
}

/// A duplicate-free sequence drawn from `u` is no longer than `u`.
proof fn lemma_no_dup_len_bound(s: Seq<i64>, u: Seq<i64>)
    requires
        s.no_duplicates(),
        forall|x: i64| #[trigger] s.contains(x) ==> u.contains(x),
    ensures
        s.len() <= u.len(),
{
    s.unique_seq_to_set();
    u.lemma_cardinality_of_set();
    assert(s.to_set().subset_of(u.to_set()));
    vstd::set_lib::lemma_len_subset(s.to_set(), u.to_set());
}

/// Every group of a walk that starts in a set closed under the links lies
/// in the set.
proof fn lemma_closed_walk(edges: Set<(i64, i64)>, seen: Seq<i64>, w: Seq<i64>, k: int)
    requires
        is_walk(edges, w),
        0 <= k < w.len(),
        seen.contains(w[0]),
        forall|x: i64, y: i64|
            seen.contains(x) && #[trigger] edges.contains((x, y)) ==> seen.contains(y),
    ensures
        seen.contains(w[k]),
    decreases k,
{
    if k > 0 {
        lemma_closed_walk(edges, seen, w, k - 1);
        assert(edge_at(edges, w, k - 1));
    }
}

/// Whether making `child_group_id` a child of `parent_group_id` would
/// close a cycle: they are the same group, or the parent already lies
/// below the child.
pub fn would_create_cycle(db: &Database, parent_group_id: i64, child_group_id: i64) -> (res: bool)
    ensures
        res == closes_cycle(db@.group_children, parent_group_id, child_group_id),
{
    let p = parent_group_id;
    let c = child_group_id;
    if p == c {
        return true;
    }
    let links = &db.group_children;
    let ghost edges = links@.to_set();
    let ghost universe = search_universe(c, links@);
    let mut stack: Vec<i64> = Vec::new();
    stack.push(c);
    let mut seen: Vec<i64> = Vec::new();
    seen.push(c);
    proof {
        assert(universe[0] == c);
        assert(seen@[0] == c);
        assert(stack@[0] == c);
    }
    while stack.len() > 0
        invariant
            p != c,
            p == parent_group_id,
            c == child_group_id,
            edges == links@.to_set(),
            edges == db@.group_children,
            universe == search_universe(c, links@),
            seen@.no_duplicates(),
            stack@.no_duplicates(),
            seen@.contains(c),
            !seen@.contains(p),
            forall|x: i64| #[trigger] stack@.contains(x) ==> seen@.contains(x),
            forall|x: i64| #[trigger] seen@.contains(x) ==> reaches(edges, c, x),
            forall|x: i64| #[trigger] seen@.contains(x) ==> universe.contains(x),
            forall|x: i64, y: i64|
                seen@.contains(x) && !stack@.contains(x) && #[trigger] edges.contains((x, y))
                    ==> seen@.contains(y),
            seen@.len() <= universe.len(),
        decreases universe.len() - seen@.len(), stack@.len(),
    {
        let ghost stack_before = stack@;
        let u = stack.pop().unwrap();
        proof {
            assert(stack@ =~= stack_before.drop_last());
            assert(stack_before[stack_before.len() - 1] == u);
            assert(stack_before.contains(u));
            assert(seen@.contains(u));
            assert forall|x: i64| #[trigger] stack@.contains(x) implies seen@.contains(x) && x != u by {
                let k = choose|k: int| 0 <= k < stack@.len() && stack@[k] == x;
                assert(stack_before[k] == x);
                assert(stack_before.contains(x));
            }
            assert forall|x: i64, y: i64|
                seen@.contains(x) && x != u && !stack@.contains(x) && #[trigger] edges.contains((x, y))
                    implies seen@.contains(y) by {
                if stack_before.contains(x) {
                    let k = choose|k: int| 0 <= k < stack_before.len() && stack_before[k] == x;
                    if k < stack_before.len() - 1 {
                        assert(stack@[k] == x);
                    }
                }
            }
        }
        let ghost old_seen_len = seen@.len();
        let ghost old_stack_len = stack@.len();
        let mut j: usize = 0;
        while j < links.len()
            invariant
                p != c,
                p == parent_group_id,
                c == child_group_id,
                edges == links@.to_set(),
                edges == db@.group_children,
                universe == search_universe(c, links@),
                0 <= j <= links.len(),
                seen@.no_duplicates(),
                stack@.no_duplicates(),
                seen@.contains(c),
                seen@.contains(u),
                !stack@.contains(u),
                !seen@.contains(p),
                forall|x: i64| #[trigger] stack@.contains(x) ==> seen@.contains(x),
                forall|x: i64| #[trigger] seen@.contains(x) ==> reaches(edges, c, x),
                forall|x: i64| #[trigger] seen@.contains(x) ==> universe.contains(x),
                forall|x: i64, y: i64|
                    seen@.contains(x) && x != u && !stack@.contains(x) && #[trigger] edges.contains(
                        (x, y),
                    ) ==> seen@.contains(y),
                forall|k: int| 0 <= k < j && (#[trigger] links@[k]).0 == u ==> seen@.contains(links@[k].1),
                seen@.len() <= universe.len(),
                old_seen_len <= seen@.len(),
                seen@.len() == old_seen_len ==> stack@.len() == old_stack_len,
            decreases links.len() - j,
        {
            let e = links[j];
            if e.0 == u {
                proof {
                    assert(links@[j as int] == e);
                    assert(edges.contains(e));
                    lemma_reaches_then_edge(edges, c, u, e.1);
                }
                if e.1 == p {
                    assert(descends(edges, c, p));
                    assert(closes_cycle(db@.group_children, p, c));
                    return true;
                }
                if !vec_contains(&seen, e.1) {
                    let ghost seen_before = seen@;
                    let ghost stack_prev = stack@;
                    seen.push(e.1);
                    stack.push(e.1);
                    proof {
                        assert(universe[j + 1] == e.1);
                        assert forall|x: i64| #[trigger] seen@.contains(x) <==> seen_before.contains(x) || x == e.1 by {
                            if seen@.contains(x) {
                                let k = choose|k: int| 0 <= k < seen@.len() && seen@[k] == x;
                                if k < seen_before.len() {
                                    assert(seen_before[k] == x);
                                }
                            }
                            if seen_before.contains(x) {
                                let k = choose|k: int| 0 <= k < seen_before.len() && seen_before[k] == x;
                                assert(seen@[k] == x);
                            }
                            if x == e.1 {
                                assert(seen@[seen_before.len() as int] == x);
                            }
                        }
                        assert forall|x: i64| #[trigger] stack@.contains(x) <==> stack_prev.contains(x) || x == e.1 by {
                            if stack@.contains(x) {
                                let k = choose|k: int| 0 <= k < stack@.len() && stack@[k] == x;
                                if k < stack_prev.len() {
                                    assert(stack_prev[k] == x);
                                }
                            }
                            if stack_prev.contains(x) {
                                let k = choose|k: int| 0 <= k < stack_prev.len() && stack_prev[k] == x;
                                assert(stack@[k] == x);
                            }
                            if x == e.1 {
                                assert(stack@[stack_prev.len() as int] == x);
                            }
                        }
                        assert(!stack_prev.contains(e.1));
                        assert forall|a: int, b: int| 0 <= a < b < seen@.len() implies seen@[a] != seen@[b] by {
                            if b == seen_before.len() {
                                assert(seen_before[a] == seen@[a]);
                                assert(seen_before.contains(seen@[a]));
                            } else {
                                assert(seen_before[a] == seen@[a]);
                                assert(seen_before[b] == seen@[b]);
                            }
                        }
                        assert forall|a: int, b: int| 0 <= a < b < stack@.len() implies stack@[a] != stack@[b] by {
                            if b == stack_prev.len() {
                                assert(stack_prev[a] == stack@[a]);
                                assert(stack_prev.contains(stack@[a]));
                            } else {
                                assert(stack_prev[a] == stack@[a]);
                                assert(stack_prev[b] == stack@[b]);
                            }
                        }
                        assert(seen@.no_duplicates());
                        assert(stack@.no_duplicates());
                        lemma_no_dup_len_bound(seen@, universe);
                    }
                }
            }
            j = j + 1;
        }
        proof {
            assert forall|y: i64| #[trigger] edges.contains((u, y)) implies seen@.contains(y) by {
                let k = choose|k: int| 0 <= k < links@.len() && links@[k] == (u, y);
                assert(links@[k].0 == u);
            }
        }
    }
    proof {
        if descends(edges, c, p) {
            let w = choose|w: Seq<i64>|
                #[trigger] is_walk(edges, w) && w.len() >= 2 && w[0] == c && w.last() == p;
            lemma_closed_walk(edges, seen@, w, w.len() - 1);
        }
    }
    false
}

/// Whether the list holds this value.
fn vec_contains(v: &Vec<i64>, x: i64) -> (res: bool)
    ensures
        res == v@.contains(x),
{
    let mut i: usize = 0;
    while i < v.len()
        invariant
            0 <= i <= v.len(),
            forall|k: int| 0 <= k < i ==> v@[k] != x,
        decreases v.len() - i,
    {
        if v[i] == x {
            assert(v@[i as int] == x);
            return true;
        }
        i = i + 1;
    }
    false
}

} // verus!
