use vstd::prelude::*;
use crate::db::database::{DbError, DbView, lemma_file_by_path, lemma_file_by_id, lemma_group_by_id, ids_valid, lemma_file_index, lemma_group_index, lemma_tag_by_name, lemma_wf_with_file, lemma_wf_with_group, lemma_wf_with_tag, next_id, nocase_eq};
use crate::domain::file::FileView;
use crate::domain::group::GroupView;
use crate::domain::tag::TagView;
use crate::services::file_service::{track_all, track_one};
use crate::services::group_service::{add_all, lemma_add_all_keeps_rows};
use crate::cli::commands::{add_to_groups, ids_of_paths, track_files_outcome};
use crate::config::ColorsView;
use crate::db::rows::{rows_kept, lemma_rows_with_file, lemma_rows_with_group};

verus! {

/// A new row's id is larger than every id already in its table, so ids are
/// never reused while rows exist.
pub proof fn law_new_ids_are_fresh(ids: Seq<i64>, id: i64)
    requires
        ids_valid(ids),
        next_id(ids) == Some(id),
    ensures
        forall|i: int| 0 <= i < ids.len() ==> ids[i] < id,
        id > 0,
{
    assert forall|i: int| 0 <= i < ids.len() implies ids[i] < id by {
        assert(ids[i] <= ids.last());
    }
}

/// Tracking a new path and then untracking the file it got gives back the
/// database as it was.
pub proof fn law_track_then_untrack_restores(v: DbView, path: Seq<char>, created_at: i64, id: i64)
    requires
        v.wf(),
        !v.has_path(path),
        next_id(v.file_ids()) == Some(id),
    ensures
        v.with_file(FileView { id, path, created_at }).file_index(id) == v.files.len(),
        v.with_file(FileView { id, path, created_at }).without_file(v.files.len() as int) == v,
{
    let f = FileView { id, path, created_at };
    let w = v.with_file(f);
    lemma_wf_with_file(v, f);
    assert(w.files[v.files.len() as int] == f);
    lemma_file_index(w, v.files.len() as int);
    assert(w.files.remove(v.files.len() as int) =~= v.files);
    crate::db::database::lemma_ids_valid_push(v.file_ids(), id);
    assert(w.group_files.filter(|p: (i64, i64)| p.1 != id) =~= v.group_files) by {
        assert forall|p: (i64, i64)| #[trigger] v.group_files.contains(p) implies p.1 != id by {
            assert(v.group_files.contains((p.0, p.1)));
        }
    }
    assert(w.without_file(v.files.len() as int) =~= v);
}

/// Creating a group and then deleting it gives back the database as it
/// was.
pub proof fn law_create_then_delete_group_restores(v: DbView, g: GroupView)
    requires
        v.wf(),
        next_id(v.group_ids()) == Some(g.id),
    ensures
        v.with_group(g).group_index(g.id) == v.groups.len(),
        v.with_group(g).without_group(v.groups.len() as int) == v,
{
    let w = v.with_group(g);
    lemma_wf_with_group(v, g);
    assert(w.groups[v.groups.len() as int] == g);
    lemma_group_index(w, v.groups.len() as int);
    crate::db::database::lemma_ids_valid_push(v.group_ids(), g.id);
    let id = g.id;
    assert(w.groups.remove(v.groups.len() as int) =~= v.groups);
    assert(w.group_files.filter(|p: (i64, i64)| p.0 != id) =~= v.group_files) by {
        assert forall|p: (i64, i64)| #[trigger] v.group_files.contains(p) implies p.0 != id by {
            assert(v.group_files.contains((p.0, p.1)));
        }
    }
    assert(w.group_children.filter(|p: (i64, i64)| p.0 != id && p.1 != id) =~= v.group_children) by {
        assert forall|p: (i64, i64)| #[trigger] v.group_children.contains(p) implies p.0 != id && p.1
            != id by {
            assert(v.group_children.contains((p.0, p.1)));
        }
    }
    assert(w.group_tags.filter(|p: (i64, i64)| p.0 != id) =~= v.group_tags) by {
        assert forall|p: (i64, i64)| #[trigger] v.group_tags.contains(p) implies p.0 != id by {
            assert(v.group_tags.contains((p.0, p.1)));
        }
    }
    assert(w.without_group(v.groups.len() as int) =~= v);
}

/// Untracking a file leaves no group linked to it.
pub proof fn law_untracked_file_has_no_links(v: DbView, i: int)
    requires
        v.wf(),
        0 <= i < v.files.len(),
    ensures
        forall|g: i64| !#[trigger] v.without_file(i).group_files.contains((g, v.files[i].id)),
{
}

/// Deleting a group leaves no link that names it: no file, parent, child
/// or tag stays linked to it.
pub proof fn law_deleted_group_has_no_links(v: DbView, i: int)
    requires
        v.wf(),
        0 <= i < v.groups.len(),
    ensures
        forall|f: i64| !#[trigger] v.without_group(i).group_files.contains((v.groups[i].id, f)),
        forall|h: i64| !#[trigger] v.without_group(i).group_children.contains((v.groups[i].id, h)),
        forall|h: i64| !#[trigger] v.without_group(i).group_children.contains((h, v.groups[i].id)),
        forall|t: i64| !#[trigger] v.without_group(i).group_tags.contains((v.groups[i].id, t)),
{
}

/// After a tag is created, looking up its name, written with any case of
/// ASCII letters, finds it.
pub proof fn law_created_tag_is_found(v: DbView, name: Seq<char>, id: i64, lookup: Seq<char>)
    requires
        v.wf(),
        !v.has_tag_name(name),
        next_id(v.tag_ids()) == Some(id),
        nocase_eq(name, lookup),
    ensures
        v.with_tag(TagView { id, name }).tag_by_name(lookup) == Some(TagView { id, name }),
{
    let t = TagView { id, name };
    lemma_wf_with_tag(v, t);
    let w = v.with_tag(t);
    assert(w.tags[v.tags.len() as int] == t);
    assert(w.tags.contains(t));
    lemma_tag_by_name(w, t, lookup);
}

/// Reading a link back after writing it: a link just added is present, a
/// link just removed is absent, and adding a link that is present changes
/// nothing.
pub proof fn law_link_read_after_write(links: Set<(i64, i64)>, a: i64, b: i64)
    ensures
        links.insert((a, b)).contains((a, b)),
        !links.remove((a, b)).contains((a, b)),
        links.contains((a, b)) ==> links.insert((a, b)) == links,
{
    if links.contains((a, b)) {
        assert(links.insert((a, b)) =~= links);
    }
}

proof fn lemma_tracked_paths_stay(v: DbView, paths: Seq<Seq<char>>)
    requires
        track_all(v, paths).1 is Ok,
    ensures
        forall|k: int| 0 <= k < paths.len() ==> #[trigger] track_all(v, paths).0.has_path(paths[k]),
        forall|p: Seq<char>| v.has_path(p) ==> #[trigger] track_all(v, paths).0.has_path(p),
    decreases paths.len(),
{
    if paths.len() > 0 {
        let front = paths.drop_last();
        lemma_tracked_paths_stay(v, front);
        let w = track_all(v, front).0;
        let x = paths.last();
        let w2 = track_one(w, x).0;
        assert(w2 == track_all(v, paths).0);
        assert forall|p: Seq<char>| w.has_path(p) implies #[trigger] w2.has_path(p) by {
            let i = choose|i: int| 0 <= i < w.files.len() && #[trigger] w.files[i].path == p;
            assert(w2.files[i] == w.files[i]);
        }
        if !w.has_path(x) {
            assert(w2.files[w.files.len() as int].path == x);
        }
        assert forall|k: int| 0 <= k < paths.len() implies #[trigger] w2.has_path(paths[k]) by {
            if k < front.len() {
                assert(front[k] == paths[k]);
                assert(w.has_path(front[k]));
            }
        }
    }
}

proof fn lemma_tracking_tracked_paths(u: DbView, paths: Seq<Seq<char>>)
    requires
        forall|k: int| 0 <= k < paths.len() ==> #[trigger] u.has_path(paths[k]),
    ensures
        track_all(u, paths) == (u, Ok::<Seq<i64>, DbError>(Seq::empty())),
    decreases paths.len(),
{
    if paths.len() > 0 {
        let front = paths.drop_last();
        assert forall|k: int| 0 <= k < front.len() implies #[trigger] u.has_path(front[k]) by {
            assert(front[k] == paths[k]);
        }
        lemma_tracking_tracked_paths(u, front);
        assert(u.has_path(paths[paths.len() - 1]));
    }
}

/// Tracking the same paths a second time changes nothing and tracks no new
/// file: every path is tracked at most once.
pub proof fn law_track_again_changes_nothing(v: DbView, paths: Seq<Seq<char>>)
    requires
        track_all(v, paths).1 is Ok,
    ensures
        track_all(track_all(v, paths).0, paths) == (track_all(v, paths).0, Ok::<Seq<i64>, DbError>(
            Seq::empty(),
        )),
{
    lemma_tracked_paths_stay(v, paths);
    lemma_tracking_tracked_paths(track_all(v, paths).0, paths);
}

proof fn lemma_track_all_wf(v: DbView, paths: Seq<Seq<char>>)
    requires
        v.wf(),
    ensures
        track_all(v, paths).0.wf(),
    decreases paths.len(),
{
    if paths.len() > 0 {
        let front = paths.drop_last();
        lemma_track_all_wf(v, front);
        let w = track_all(v, front).0;
        let x = paths.last();
        if !w.has_path(x) {
            if let Some(id) = next_id(w.file_ids()) {
                lemma_wf_with_file(w, FileView { id, path: x, created_at: 0 });
            }
        }
    }
}

/// When every path was new, the i-th id is that of the file tracked under
/// the i-th path.
proof fn lemma_track_all_all_new(v: DbView, paths: Seq<Seq<char>>)
    requires
        track_all(v, paths).1 is Ok,
    ensures
        track_all(v, paths).1->Ok_0.len() <= paths.len(),
        track_all(v, paths).1->Ok_0.len() == paths.len() ==> forall|k: int|
            0 <= k < paths.len() ==> track_all(v, paths).0.files.contains(
                FileView { id: #[trigger] track_all(v, paths).1->Ok_0[k], path: paths[k], created_at: 0 },
            ),
        forall|f: FileView| v.files.contains(f) ==> #[trigger] track_all(v, paths).0.files.contains(f),
    decreases paths.len(),
{
    if paths.len() > 0 {
        let front = paths.drop_last();
        lemma_track_all_all_new(v, front);
        let (w, r) = track_all(v, front);
        let ids = r->Ok_0;
        let x = paths.last();
        let (w2, r2) = track_one(w, x);
        assert forall|f: FileView| w.files.contains(f) implies #[trigger] w2.files.contains(f) by {
            let i = choose|i: int| 0 <= i < w.files.len() && w.files[i] == f;
            assert(w2.files[i] == f);
        }
        let all = track_all(v, paths).1->Ok_0;
        if all.len() == paths.len() {
            let id = r2->Ok_0->Some_0;
            assert(all == ids.push(id));
            let nf = FileView { id, path: x, created_at: 0 };
            assert(w2.files[w.files.len() as int] == nf);
            assert forall|k: int| 0 <= k < paths.len() implies w2.files.contains(
                FileView { id: #[trigger] all[k], path: paths[k], created_at: 0 },
            ) by {
                if k < front.len() {
                    assert(front[k] == paths[k]);
                    assert(all[k] == ids[k]);
                    assert(w.files.contains(FileView { id: ids[k], path: front[k], created_at: 0 }));
                }
            }
        }
    }
}

/// The ids that `ids_of_paths` finds are those of the files under the
/// paths.
proof fn lemma_ids_of_paths(v: DbView, paths: Seq<Seq<char>>)
    requires
        forall|k: int| 0 <= k < paths.len() ==> #[trigger] v.has_path(paths[k]),
    ensures
        ids_of_paths(v, paths) is Some,
        ids_of_paths(v, paths)->Some_0.len() == paths.len(),
        forall|k: int| 0 <= k < paths.len() ==> #[trigger] ids_of_paths(v, paths)->Some_0[k]
            == v.file_by_path(paths[k])->Some_0.id,
    decreases paths.len(),
{
    if paths.len() > 0 {
        let front = paths.drop_last();
        assert forall|k: int| 0 <= k < front.len() implies #[trigger] v.has_path(front[k]) by {
            assert(front[k] == paths[k]);
        }
        lemma_ids_of_paths(v, front);
        assert(v.has_path(paths[paths.len() - 1]));
        let all = ids_of_paths(v, paths)->Some_0;
        assert forall|k: int| 0 <= k < paths.len() implies #[trigger] all[k] == v.file_by_path(
            paths[k],
        )->Some_0.id by {
            if k < front.len() {
                assert(front[k] == paths[k]);
            }
        }
    }
}

/// Linking files to a group keeps the files and the earlier links, and
/// when it succeeds every file is linked.
proof fn lemma_add_all_links(v: DbView, g: i64, ids: Seq<i64>)
    ensures
        add_all(v, g, ids).0.files == v.files,
        forall|p: (i64, i64)| v.group_files.contains(p) ==> #[trigger] add_all(v, g, ids).0.group_files.contains(p),
        add_all(v, g, ids).1 is Ok ==> forall|k: int|
            0 <= k < ids.len() ==> add_all(v, g, ids).0.group_files.contains((g, #[trigger] ids[k])),
    decreases ids.len(),
{
    if ids.len() > 0 {
        let front = ids.drop_last();
        lemma_add_all_links(v, g, front);
        if add_all(v, g, ids).1 is Ok {
            assert forall|k: int| 0 <= k < ids.len() implies add_all(v, g, ids).0.group_files.contains(
                (g, #[trigger] ids[k]),
            ) by {
                if k < front.len() {
                    assert(front[k] == ids[k]);
                }
            }
        }
    }
}

proof fn lemma_add_to_groups_links(
    v: DbView,
    c: ColorsView,
    groups: Seq<i64>,
    file_ids: Seq<i64>,
    paths: Seq<Seq<char>>,
)
    ensures
        add_to_groups(v, c, groups, file_ids, paths).0.files == v.files,
        add_to_groups(v, c, groups, file_ids, paths).2 is Ok ==> forall|j: int, k: int|
            0 <= j < groups.len() && 0 <= k < file_ids.len() ==> add_to_groups(
                v,
                c,
                groups,
                file_ids,
                paths,
            ).0.group_files.contains((#[trigger] groups[j], #[trigger] file_ids[k])),
    decreases groups.len(),
{
    if groups.len() > 0 {
        let front = groups.drop_last();
        lemma_add_to_groups_links(v, c, front, file_ids, paths);
        let w = add_to_groups(v, c, front, file_ids, paths).0;
        let g = groups.last();
        lemma_add_all_links(w, g, file_ids);
        if add_to_groups(v, c, groups, file_ids, paths).2 is Ok {
            let w2 = add_all(w, g, file_ids).0;
            assert forall|j: int, k: int| 0 <= j < groups.len() && 0 <= k < file_ids.len() implies w2.group_files.contains(
                (#[trigger] groups[j], #[trigger] file_ids[k]),
            ) by {
                if j < front.len() {
                    assert(front[j] == groups[j]);
                    assert(w.group_files.contains((front[j], file_ids[k])));
                }
            }
        }
    }
}

/// Tracking files into groups: when it succeeds, every collected path is
/// tracked and its file is linked to every one of the groups.
pub proof fn law_tracked_files_join_groups(
    v: DbView,
    c: ColorsView,
    collected: Seq<Seq<char>>,
    groups: Seq<i64>,
)
    requires
        v.wf(),
        track_files_outcome(v, c, collected, Some(groups)).result is Ok,
    ensures
        forall|k: int, j: int|
            0 <= k < collected.len() && 0 <= j < groups.len() ==> {
                let db = track_files_outcome(v, c, collected, Some(groups)).db;
                &&& db.has_path(#[trigger] collected[k])
                &&& db.group_files.contains((#[trigger] groups[j], db.file_by_path(collected[k])->Some_0.id))
            },
{
    reveal(track_files_outcome);
    let (w, r) = track_all(v, collected);
    let ids = r->Ok_0;
    lemma_track_all_wf(v, collected);
    lemma_tracked_paths_stay(v, collected);
    lemma_track_all_all_new(v, collected);
    lemma_ids_of_paths(w, collected);
    let fids = if ids.len() != collected.len() {
        ids_of_paths(w, collected)->Some_0
    } else {
        ids
    };
    assert forall|k: int| 0 <= k < collected.len() implies #[trigger] fids[k] == w.file_by_path(
        collected[k],
    )->Some_0.id && fids.len() == collected.len() by {
        if ids.len() == collected.len() {
            let f = FileView { id: ids[k], path: collected[k], created_at: 0 };
            assert(w.files.contains(f));
            lemma_file_by_path(w, f);
        }
    }
    lemma_add_to_groups_links(w, c, groups, fids, collected);
    let w2 = add_to_groups(w, c, groups, fids, collected).0;
    assert(track_files_outcome(v, c, collected, Some(groups)).db == w2);
    assert forall|k: int, j: int| 0 <= k < collected.len() && 0 <= j < groups.len() implies {
        &&& w2.has_path(#[trigger] collected[k])
        &&& w2.group_files.contains((#[trigger] groups[j], w2.file_by_path(collected[k])->Some_0.id))
    } by {
        assert(w.has_path(collected[k]));
        assert(w2.files == w.files);
        assert(w2.file_by_path(collected[k]) == w.file_by_path(collected[k]));
        assert(w2.group_files.contains((groups[j], fids[k])));
    }
}

proof fn lemma_track_all_keeps_groups(v: DbView, paths: Seq<Seq<char>>)
    ensures
        track_all(v, paths).0.groups == v.groups,
    decreases paths.len(),
{
    if paths.len() > 0 {
        lemma_track_all_keeps_groups(v, paths.drop_last());
    }
}

proof fn lemma_add_all_ok(u: DbView, g: i64, ids: Seq<i64>)
    requires
        u.has_group(g),
        forall|k: int| 0 <= k < ids.len() ==> u.has_file(#[trigger] ids[k]),
    ensures
        add_all(u, g, ids).1 is Ok,
    decreases ids.len(),
{
    if ids.len() > 0 {
        let front = ids.drop_last();
        assert forall|k: int| 0 <= k < front.len() implies u.has_file(#[trigger] front[k]) by {
            assert(front[k] == ids[k]);
        }
        lemma_add_all_ok(u, g, front);
        lemma_add_all_keeps_rows(u, g, front);
        let w = add_all(u, g, front).0;
        assert(w.file_ids() == u.file_ids());
        assert(w.group_ids() == u.group_ids());
        assert(u.has_file(ids[ids.len() - 1]));
    }
}

proof fn lemma_add_to_groups_ok(
    u: DbView,
    c: ColorsView,
    groups: Seq<i64>,
    file_ids: Seq<i64>,
    paths: Seq<Seq<char>>,
)
    requires
        forall|j: int| 0 <= j < groups.len() ==> u.has_group(#[trigger] groups[j]),
        forall|k: int| 0 <= k < file_ids.len() ==> u.has_file(#[trigger] file_ids[k]),
    ensures
        add_to_groups(u, c, groups, file_ids, paths).2 is Ok,
        add_to_groups(u, c, groups, file_ids, paths).0.files == u.files,
        add_to_groups(u, c, groups, file_ids, paths).0.groups == u.groups,
    decreases groups.len(),
{
    if groups.len() > 0 {
        let front = groups.drop_last();
        assert forall|j: int| 0 <= j < front.len() implies u.has_group(#[trigger] front[j]) by {
            assert(front[j] == groups[j]);
        }
        lemma_add_to_groups_ok(u, c, front, file_ids, paths);
        let w = add_to_groups(u, c, front, file_ids, paths).0;
        let g = groups.last();
        assert(w.file_ids() == u.file_ids());
        assert(w.group_ids() == u.group_ids());
        assert(u.has_group(groups[groups.len() - 1]));
        lemma_add_all_ok(w, g, file_ids);
        lemma_add_all_keeps_rows(w, g, file_ids);
    }
}

/// Tracking files into groups succeeds whenever the tracking itself
/// succeeds and every group named exists.
pub proof fn law_tracking_into_existing_groups_succeeds(
    v: DbView,
    c: ColorsView,
    collected: Seq<Seq<char>>,
    groups: Seq<i64>,
)
    requires
        v.wf(),
        track_all(v, collected).1 is Ok,
        forall|j: int| 0 <= j < groups.len() ==> v.has_group(#[trigger] groups[j]),
    ensures
        track_files_outcome(v, c, collected, Some(groups)).result is Ok,
{
    reveal(track_files_outcome);
    let (w, r) = track_all(v, collected);
    let ids = r->Ok_0;
    lemma_track_all_wf(v, collected);
    lemma_tracked_paths_stay(v, collected);
    lemma_track_all_all_new(v, collected);
    lemma_track_all_keeps_groups(v, collected);
    lemma_ids_of_paths(w, collected);
    assert(w.group_ids() == v.group_ids());
    let fids = if ids.len() != collected.len() {
        ids_of_paths(w, collected)->Some_0
    } else {
        ids
    };
    assert forall|k: int| 0 <= k < fids.len() implies w.has_file(#[trigger] fids[k]) by {
        let f = if ids.len() == collected.len() {
            FileView { id: ids[k], path: collected[k], created_at: 0 }
        } else {
            w.file_by_path(collected[k])->Some_0
        };
        if ids.len() != collected.len() {
            assert(w.has_path(collected[k]));
            let i = choose|i: int| 0 <= i < w.files.len() && #[trigger] w.files[i].path == collected[k];
            assert(w.files.contains(w.files[i]));
        }
        assert(w.files.contains(f));
        let i = choose|i: int| 0 <= i < w.files.len() && w.files[i] == f;
        assert(w.file_ids()[i] == f.id);
    }
    lemma_add_to_groups_ok(w, c, groups, fids, collected);
}

/// A file row that a step keeps is read back unchanged: when `w` keeps
/// the rows of `v` (as every operation does) and still has the id of a row
/// `f` of `v`, the file under that id in `w` is `f`, creation time and
/// all. Applied step by step, a file reads back as it was inserted until
/// it is deleted.
pub proof fn law_kept_file_reads_back(v: DbView, w: DbView, f: FileView)
    requires
        v.wf(),
        w.wf(),
        v.files.contains(f),
        rows_kept(v, w),
        w.has_file(f.id),
    ensures
        w.files.contains(f),
        w.file_by_id(f.id) == Some(f),
{
    let k = choose|k: int| 0 <= k < w.file_ids().len() && w.file_ids()[k] == f.id;
    let g = w.files[k];
    assert(w.files.contains(g));
    assert(g.id == f.id);
    let i = choose|i: int| 0 <= i < v.files.len() && v.files[i] == f;
    assert(v.file_ids()[i] == f.id);
    assert(v.has_file(g.id));
    assert(v.files.contains(g));
    lemma_file_by_id(v, f);
    lemma_file_by_id(v, g);
    lemma_file_by_id(w, g);
}

/// The group counterpart of [`law_kept_file_reads_back`].
pub proof fn law_kept_group_reads_back(v: DbView, w: DbView, g: GroupView)
    requires
        v.wf(),
        w.wf(),
        v.groups.contains(g),
        rows_kept(v, w),
        w.has_group(g.id),
    ensures
        w.groups.contains(g),
        w.group_by_id(g.id) == Some(g),
{
    let k = choose|k: int| 0 <= k < w.group_ids().len() && w.group_ids()[k] == g.id;
    let h = w.groups[k];
    assert(w.groups.contains(h));
    assert(h.id == g.id);
    let i = choose|i: int| 0 <= i < v.groups.len() && v.groups[i] == g;
    assert(v.group_ids()[i] == g.id);
    assert(v.has_group(h.id));
    assert(v.groups.contains(h));
    lemma_group_by_id(v, g);
    lemma_group_by_id(v, h);
    lemma_group_by_id(w, h);
}

/// A file just inserted reads back as inserted, and the insertion keeps
/// every row.
pub proof fn law_inserted_file_reads_back(v: DbView, f: FileView)
    requires
        v.wf(),
        !v.has_path(f.path),
        next_id(v.file_ids()) == Some(f.id),
    ensures
        v.with_file(f).file_by_id(f.id) == Some(f),
        rows_kept(v, v.with_file(f)),
{
    lemma_wf_with_file(v, f);
    lemma_rows_with_file(v, f);
    assert(v.with_file(f).files[v.files.len() as int] == f);
    lemma_file_by_id(v.with_file(f), f);
}

/// A group just inserted reads back as inserted, and the insertion keeps
/// every row.
pub proof fn law_inserted_group_reads_back(v: DbView, g: GroupView)
    requires
        v.wf(),
        next_id(v.group_ids()) == Some(g.id),
    ensures
        v.with_group(g).group_by_id(g.id) == Some(g),
        rows_kept(v, v.with_group(g)),
{
    lemma_wf_with_group(v, g);
    lemma_rows_with_group(v, g);
    assert(v.with_group(g).groups[v.groups.len() as int] == g);
    lemma_group_by_id(v.with_group(g), g);
}

} // verus!
