use vstd::prelude::*;
use crate::cli::{Commands, OutputView, run_outcome};
use crate::cli::commands::{
    delete_group_outcome,
    group_add_child_outcome,
    group_has_child_outcome,
    group_has_file_outcome,
    group_list_children_outcome,
    group_list_files_outcome,
    get_group_outcome,
    group_add_file_outcome,
    group_remove_file_outcome,
    group_remove_child_outcome,
    group_add_tag_outcome,
    group_remove_tag_outcome,
    list_files_outcome,
    list_groups_outcome,
    untrack_file_outcome,
};
use crate::db::database::nocase_eq;
use crate::domain::tag::TagView;
use crate::cli::messages::{line, msg_has_child, msg_has_file, msg_lacks_child, msg_lacks_file};
use crate::config::ColorsView;
use crate::db::database::DbView;
use crate::db::hierarchy::{acyclic, descends};
use crate::domain::file::FileView;
use crate::domain::group::GroupView;

verus! {

/// The groups that a command's output shows in tables, in order.
pub open spec fn printed_groups(out: Seq<OutputView>) -> Seq<GroupView>
    decreases out.len(),
{
    if out.len() == 0 {
        Seq::empty()
    } else {
        printed_groups(out.drop_last()) + match out.last() {
            OutputView::Groups(gs) => gs,
            _ => Seq::empty(),
        }
    }
}

/// The files that a command's output shows in tables, in order.
pub open spec fn printed_files(out: Seq<OutputView>) -> Seq<FileView>
    decreases out.len(),
{
    if out.len() == 0 {
        Seq::empty()
    } else {
        printed_files(out.drop_last()) + match out.last() {
            OutputView::Files(fs) => fs,
            _ => Seq::empty(),
        }
    }
}

/// The ids of a sequence of rows rise strictly.
pub open spec fn ascending<A>(s: Seq<A>, key: spec_fn(A) -> i64) -> bool {
    forall|i: int, j: int| 0 <= i < j < s.len() ==> key(s[i]) < key(s[j])
}

proof fn lemma_filter_exact<A>(s: Seq<A>, pred: spec_fn(A) -> bool, key: spec_fn(A) -> i64)
    ensures
        forall|x: A| #[trigger] s.filter(pred).contains(x) <==> s.contains(x) && pred(x),
        ascending(s, key) ==> ascending(s.filter(pred), key),
    decreases s.len(),
{
    reveal(Seq::filter);
    if s.len() > 0 {
        let front = s.drop_last();
        lemma_filter_exact(front, pred, key);
        let f = s.filter(pred);
        let ff = front.filter(pred);
        assert forall|x: A| #[trigger] f.contains(x) <==> s.contains(x) && pred(x) by {
            if s.contains(x) && pred(x) {
                let k = choose|k: int| 0 <= k < s.len() && s[k] == x;
                if k < front.len() {
                    assert(front[k] == x);
                    assert(front.contains(x));
                    assert(ff.contains(x));
                    let m = choose|m: int| 0 <= m < ff.len() && ff[m] == x;
                    if pred(s.last()) {
                        assert(f[m] == x);
                    }
                } else {
                    assert(f[f.len() - 1] == x);
                }
            }
            if f.contains(x) {
                let m = choose|m: int| 0 <= m < f.len() && f[m] == x;
                if m < ff.len() {
                    assert(ff[m] == x);
                    assert(ff.contains(x));
                    let k = choose|k: int| 0 <= k < front.len() && front[k] == x;
                    assert(s[k] == x);
                } else {
                    assert(x == s.last());
                    assert(s[s.len() - 1] == x);
                }
            }
        }
        if ascending(s, key) {
            assert forall|i: int, j: int| 0 <= i < j < front.len() implies key(front[i]) < key(front[j]) by {
                assert(front[i] == s[i]);
                assert(front[j] == s[j]);
            }
            if pred(s.last()) {
                assert forall|i: int, j: int| 0 <= i < j < f.len() implies key(f[i]) < key(f[j]) by {
                    if j == ff.len() {
                        assert(ff.contains(ff[i]));
                        let k = choose|k: int| 0 <= k < front.len() && front[k] == ff[i];
                        assert(s[k] == front[k]);
                        assert(f[j] == s[s.len() - 1]);
                    } else {
                        assert(f[i] == ff[i]);
                        assert(f[j] == ff[j]);
                    }
                }
            }
        }
    }
}

proof fn lemma_groups_ascending(v: DbView)
    requires
        v.wf(),
    ensures
        ascending(v.groups, |g: GroupView| g.id),
{
    assert forall|i: int, j: int| 0 <= i < j < v.groups.len() implies v.groups[i].id < v.groups[j].id by {
        assert(v.group_ids()[i] == v.groups[i].id);
        assert(v.group_ids()[j] == v.groups[j].id);
    }
}

proof fn lemma_files_ascending(v: DbView)
    requires
        v.wf(),
    ensures
        ascending(v.files, |f: FileView| f.id),
{
    assert forall|i: int, j: int| 0 <= i < j < v.files.len() implies v.files[i].id < v.files[j].id by {
        assert(v.file_ids()[i] == v.files[i].id);
        assert(v.file_ids()[j] == v.files[j].id);
    }
}

/// Adding a child to a parent, both existing and distinct, is refused
/// exactly when the parent already lies below the child (a chain of
/// links leads from the child down to the parent), so that the link would
/// close a cycle. Otherwise the link is added and nothing else changes;
/// in particular a group that already has a parent can get another one.
/// A refusal changes nothing. The hierarchy stays acyclic.
pub proof fn law_add_child_refuses_only_cycles(
    v: DbView,
    c: ColorsView,
    parent: i64,
    child: i64,
    collected: Seq<Seq<char>>,
)
    requires
        v.wf(),
        parent != child,
        v.has_group(parent),
        v.has_group(child),
    ensures
        ({
            let o = run_outcome(
                v,
                c,
                Commands::GroupAddChild { parent_group_id: parent, child_group_id: child },
                collected,
            );
            &&& o.result is Err <==> descends(v.group_children, child, parent)
            &&& o.result is Ok ==> o.db == DbView {
                group_children: v.group_children.insert((parent, child)),
                ..v
            }
            &&& o.result is Ok ==> o.db.group_children.contains((parent, child))
            &&& o.result is Err ==> o.db == v
            &&& acyclic(v.group_children) ==> acyclic(o.db.group_children)
        }),
{
    reveal(group_add_child_outcome);
    let o = run_outcome(v, c, Commands::GroupAddChild { parent_group_id: parent, child_group_id: child }, collected);
    if !descends(v.group_children, child, parent) && acyclic(v.group_children) {
        crate::db::hierarchy::lemma_add_edge_keeps_acyclic(v.group_children, parent, child);
    }
}

/// Listing the children of an existing group shows exactly the groups
/// that are linked below it (a group linked above it, or not linked, is
/// never shown), each once, in ascending id order.
pub proof fn law_list_children_shows_direct_children(
    v: DbView,
    c: ColorsView,
    parent: i64,
    collected: Seq<Seq<char>>,
)
    requires
        v.wf(),
        v.has_group(parent),
    ensures
        ({
            let o = run_outcome(v, c, Commands::GroupListChildren { parent_group_id: parent }, collected);
            let shown = printed_groups(o.out);
            &&& o.result is Ok
            &&& o.db == v
            &&& forall|g: GroupView| #[trigger] shown.contains(g) <==> v.groups.contains(g)
                && v.group_children.contains((parent, g.id))
            &&& ascending(shown, |g: GroupView| g.id)
        }),
{
    reveal(group_list_children_outcome);
    let o = run_outcome(v, c, Commands::GroupListChildren { parent_group_id: parent }, collected);
    let kids = v.children_of(parent);
    lemma_groups_ascending(v);
    lemma_filter_exact(v.groups, v.child_of(parent), |g: GroupView| g.id);
    assert(v.group_by_id(parent) is Some);
    if kids.len() == 0 {
        assert(o.out == seq![OutputView::Text("No children\n"@)]);
        assert(o.out.drop_last() =~= Seq::<OutputView>::empty());
        assert(printed_groups(o.out.drop_last()) == Seq::<GroupView>::empty());
        assert(printed_groups(o.out) == printed_groups(o.out.drop_last()) + Seq::<GroupView>::empty());
        assert(printed_groups(o.out) =~= Seq::<GroupView>::empty());
        assert forall|g: GroupView| v.groups.contains(g) && v.group_children.contains((parent, g.id)) implies false by {
            assert(v.child_of(parent)(g));
            assert(kids.contains(g));
            let m = choose|m: int| 0 <= m < kids.len() && kids[m] == g;
        }
    } else {
        let p = v.group_by_id(parent)->Some_0;
        let head = OutputView::Text(crate::cli::messages::msg_children_in_group(kids.len() as int, p.name) + "\n"@);
        assert(o.out == seq![head, OutputView::Groups(kids)]);
        assert(o.out.drop_last() =~= seq![head]);
        assert(o.out.drop_last().drop_last() =~= Seq::<OutputView>::empty());
        assert(printed_groups(o.out.drop_last().drop_last()) == Seq::<GroupView>::empty());
        assert(o.out.drop_last().last() == head);
        assert(printed_groups(o.out.drop_last()) == printed_groups(o.out.drop_last().drop_last()) + Seq::<GroupView>::empty());
        assert(printed_groups(o.out.drop_last()) =~= Seq::<GroupView>::empty());
        assert(o.out.last() == OutputView::Groups(kids));
        assert(printed_groups(o.out) == printed_groups(o.out.drop_last()) + kids);
        assert(printed_groups(o.out) =~= kids);
    }
    assert forall|g: GroupView| #[trigger] printed_groups(o.out).contains(g) <==> v.groups.contains(g)
        && v.group_children.contains((parent, g.id)) by {
        assert(v.child_of(parent)(g) == v.group_children.contains((parent, g.id)));
    }
}

/// Listing the files of an existing group shows exactly the tracked files
/// linked to it (a file not linked to it is never shown), each once, in
/// ascending id order.
pub proof fn law_list_files_shows_linked_files(
    v: DbView,
    c: ColorsView,
    group_id: i64,
    collected: Seq<Seq<char>>,
)
    requires
        v.wf(),
        v.has_group(group_id),
    ensures
        ({
            let o = run_outcome(v, c, Commands::GroupListFiles { group_id }, collected);
            let shown = printed_files(o.out);
            &&& o.result is Ok
            &&& o.db == v
            &&& forall|f: FileView| #[trigger] shown.contains(f) <==> v.files.contains(f)
                && v.group_files.contains((group_id, f.id))
            &&& ascending(shown, |f: FileView| f.id)
        }),
{
    reveal(group_list_files_outcome);
    let o = run_outcome(v, c, Commands::GroupListFiles { group_id }, collected);
    let files = v.files_in_group(group_id);
    lemma_files_ascending(v);
    lemma_filter_exact(v.files, v.file_in_group(group_id), |f: FileView| f.id);
    assert(v.group_by_id(group_id) is Some);
    if files.len() == 0 {
        assert(o.out == seq![OutputView::Text("No files"@)]);
        assert(o.out.drop_last() =~= Seq::<OutputView>::empty());
        assert(printed_files(o.out.drop_last()) == Seq::<FileView>::empty());
        assert(printed_files(o.out) == printed_files(o.out.drop_last()) + Seq::<FileView>::empty());
        assert(printed_files(o.out) =~= Seq::<FileView>::empty());
        assert forall|f: FileView| v.files.contains(f) && v.group_files.contains((group_id, f.id)) implies false by {
            assert(v.file_in_group(group_id)(f));
            assert(files.contains(f));
            let m = choose|m: int| 0 <= m < files.len() && files[m] == f;
        }
    } else {
        let g = v.group_by_id(group_id)->Some_0;
        let head = OutputView::Text(crate::cli::messages::msg_files_in_group(files.len() as int, g.name) + "\n"@);
        assert(o.out == seq![head, OutputView::Files(files)]);
        assert(o.out.drop_last() =~= seq![head]);
        assert(o.out.drop_last().drop_last() =~= Seq::<OutputView>::empty());
        assert(printed_files(o.out.drop_last().drop_last()) == Seq::<FileView>::empty());
        assert(o.out.drop_last().last() == head);
        assert(printed_files(o.out.drop_last()) == printed_files(o.out.drop_last().drop_last()) + Seq::<FileView>::empty());
        assert(printed_files(o.out.drop_last()) =~= Seq::<FileView>::empty());
        assert(o.out.last() == OutputView::Files(files));
        assert(printed_files(o.out) == printed_files(o.out.drop_last()) + files);
        assert(printed_files(o.out) =~= files);
    }
    assert forall|f: FileView| #[trigger] printed_files(o.out).contains(f) <==> v.files.contains(f)
        && v.group_files.contains((group_id, f.id)) by {
        assert(v.file_in_group(group_id)(f) == v.group_files.contains((group_id, f.id)));
    }
}

/// Deleting an existing group succeeds and the group is gone: no row has
/// its id, no link names it, every other group, every file and every tag
/// stays, every link that does not name it stays, and looking the group
/// up afterwards fails.
pub proof fn law_deleted_group_is_gone(v: DbView, c: ColorsView, group_id: i64, collected: Seq<Seq<char>>)
    requires
        v.wf(),
        v.has_group(group_id),
    ensures
        ({
            let o = run_outcome(v, c, Commands::DeleteGroup { group_id }, collected);
            &&& o.result is Ok
            &&& !o.db.has_group(group_id)
            &&& forall|g: GroupView| #[trigger] o.db.groups.contains(g) <==> v.groups.contains(g) && g.id
                != group_id
            &&& o.db.files == v.files
            &&& o.db.tags == v.tags
            &&& forall|p: (i64, i64)| #[trigger] o.db.group_files.contains(p) <==> v.group_files.contains(p)
                && p.0 != group_id
            &&& forall|p: (i64, i64)| #[trigger] o.db.group_children.contains(p) <==> v.group_children.contains(
                p,
            ) && p.0 != group_id && p.1 != group_id
            &&& forall|p: (i64, i64)| #[trigger] o.db.group_tags.contains(p) <==> v.group_tags.contains(p)
                && p.0 != group_id
            &&& run_outcome(o.db, c, Commands::GetGroup { group_id }, collected).result is Err
        }),
{
    reveal(delete_group_outcome);
    reveal(get_group_outcome);
    let o = run_outcome(v, c, Commands::DeleteGroup { group_id }, collected);
    assert(v.group_by_id(group_id) is Some);
    let k = choose|k: int| 0 <= k < v.groups.len() && v.group_ids()[k] == group_id;
    assert(v.group_ids()[k] == v.groups[k].id);
    crate::db::database::lemma_group_index(v, k);
    let i = v.group_index(group_id);
    assert(i == k);
    let w = v.without_group(i);
    assert(o.db == w);
    crate::db::database::lemma_wf_without_group(v, i);
    lemma_groups_ascending(v);
    assert forall|g: GroupView| #[trigger] w.groups.contains(g) <==> v.groups.contains(g) && g.id != group_id by {
        if w.groups.contains(g) {
            let m = choose|m: int| 0 <= m < w.groups.len() && w.groups[m] == g;
            if m < i {
                assert(v.groups[m] == g);
                assert(v.groups[m].id < v.groups[i].id);
            } else {
                assert(v.groups[m + 1] == g);
                assert(v.groups[i].id < v.groups[m + 1].id);
            }
        }
        if v.groups.contains(g) && g.id != group_id {
            let m = choose|m: int| 0 <= m < v.groups.len() && v.groups[m] == g;
            assert(m != i);
            if m < i {
                assert(w.groups[m] == g);
            } else {
                assert(w.groups[m - 1] == g);
            }
        }
    }
    assert(!w.has_group(group_id)) by {
        if w.has_group(group_id) {
            let m = choose|m: int| 0 <= m < w.group_ids().len() && w.group_ids()[m] == group_id;
            assert(w.group_ids()[m] == w.groups[m].id);
            assert(w.groups.contains(w.groups[m]));
        }
    }
}

/// Asking whether an existing group has an existing file answers yes
/// exactly when that file is linked to that group, and no otherwise,
/// whatever other files the group holds.
pub proof fn law_has_file_answers_the_link(
    v: DbView,
    c: ColorsView,
    group_id: i64,
    file_id: i64,
    collected: Seq<Seq<char>>,
)
    requires
        v.wf(),
        v.has_group(group_id),
        v.has_file(file_id),
    ensures
        ({
            let o = run_outcome(v, c, Commands::GroupHasFile { group_id, file_id }, collected);
            let name = v.group_by_id(group_id)->Some_0.name;
            let path = v.file_by_id(file_id)->Some_0.path;
            &&& o.result is Ok
            &&& o.db == v
            &&& v.group_files.contains((group_id, file_id)) ==> o.out == seq![
                OutputView::Text(line(c.green, msg_has_file(name, path), c.reset)),
            ]
            &&& !v.group_files.contains((group_id, file_id)) ==> o.out == seq![
                OutputView::Text(line(c.yellow, msg_lacks_file(name, path), c.reset)),
            ]
        }),
{
    reveal(group_has_file_outcome);
}

/// Asking whether an existing group has another existing group as a
/// child answers yes exactly when the two are linked parent to child.
pub proof fn law_has_child_answers_the_link(
    v: DbView,
    c: ColorsView,
    parent: i64,
    child: i64,
    collected: Seq<Seq<char>>,
)
    requires
        v.wf(),
        v.has_group(parent),
        v.has_group(child),
    ensures
        ({
            let o = run_outcome(
                v,
                c,
                Commands::GroupHasChild { parent_group_id: parent, child_group_id: child },
                collected,
            );
            let pname = v.group_by_id(parent)->Some_0.name;
            let cname = v.group_by_id(child)->Some_0.name;
            &&& o.result is Ok
            &&& o.db == v
            &&& v.group_children.contains((parent, child)) ==> o.out == seq![
                OutputView::Text(line(c.green, msg_has_child(pname, cname), c.reset)),
            ]
            &&& !v.group_children.contains((parent, child)) ==> o.out == seq![
                OutputView::Text(line(c.yellow, msg_lacks_child(pname, cname), c.reset)),
            ]
        }),
{
    reveal(group_has_child_outcome);
}

/// Linking an existing file to an existing group succeeds and adds
/// exactly that link; unlinking it succeeds and removes exactly that link.
/// Nothing else changes. When the group or the file is missing, both fail
/// and change nothing.
pub proof fn law_file_links_follow_the_command(
    v: DbView,
    c: ColorsView,
    group_id: i64,
    file_id: i64,
    collected: Seq<Seq<char>>,
)
    requires
        v.wf(),
    ensures
        ({
            let add = run_outcome(v, c, Commands::GroupAddFile { group_id, file_id }, collected);
            let rem = run_outcome(v, c, Commands::GroupRemoveFile { group_id, file_id }, collected);
            let ok = v.has_group(group_id) && v.has_file(file_id);
            &&& add.result is Ok <==> ok
            &&& rem.result is Ok <==> ok
            &&& ok ==> add.db == DbView { group_files: v.group_files.insert((group_id, file_id)), ..v }
            &&& ok ==> add.db.group_files.contains((group_id, file_id))
            &&& ok ==> rem.db == DbView { group_files: v.group_files.remove((group_id, file_id)), ..v }
            &&& ok ==> !rem.db.group_files.contains((group_id, file_id))
            &&& !ok ==> add.db == v && rem.db == v
        }),
{
    reveal(group_add_file_outcome);
    reveal(group_remove_file_outcome);
}

/// Unlinking a child from a distinct parent, both existing, succeeds and
/// leaves them unlinked; every other link and row stays. When they were
/// not linked, nothing changes.
pub proof fn law_remove_child_unlinks(
    v: DbView,
    c: ColorsView,
    parent: i64,
    child: i64,
    collected: Seq<Seq<char>>,
)
    requires
        v.wf(),
        parent != child,
        v.has_group(parent),
        v.has_group(child),
    ensures
        ({
            let o = run_outcome(
                v,
                c,
                Commands::GroupRemoveChild { parent_group_id: parent, child_group_id: child },
                collected,
            );
            &&& o.result is Ok
            &&& !o.db.group_children.contains((parent, child))
            &&& o.db == DbView { group_children: v.group_children.remove((parent, child)), ..v }
            &&& !v.group_children.contains((parent, child)) ==> o.db == v
        }),
{
    reveal(group_remove_child_outcome);
    if !v.group_children.contains((parent, child)) {
        assert(v.group_children.remove((parent, child)) =~= v.group_children);
    }
}

/// Listing files shows every tracked file and only those, in ascending id
/// order; listing groups does the same for groups. Neither changes the
/// database.
pub proof fn law_lists_show_everything(v: DbView, c: ColorsView, collected: Seq<Seq<char>>)
    requires
        v.wf(),
    ensures
        ({
            let lf = run_outcome(v, c, Commands::ListFiles, collected);
            let lg = run_outcome(v, c, Commands::ListGroups, collected);
            &&& lf.result is Ok && lf.db == v
            &&& lg.result is Ok && lg.db == v
            &&& printed_files(lf.out) == v.files
            &&& printed_groups(lg.out) == v.groups
            &&& ascending(printed_files(lf.out), |f: FileView| f.id)
            &&& ascending(printed_groups(lg.out), |g: GroupView| g.id)
        }),
{
    reveal(list_files_outcome);
    reveal(list_groups_outcome);
    lemma_files_ascending(v);
    lemma_groups_ascending(v);
    let lf = run_outcome(v, c, Commands::ListFiles, collected);
    let lg = run_outcome(v, c, Commands::ListGroups, collected);
    assert(lf.out.drop_last() =~= Seq::<OutputView>::empty());
    assert(lg.out.drop_last() =~= Seq::<OutputView>::empty());
    assert(printed_files(lf.out.drop_last()) == Seq::<FileView>::empty());
    assert(printed_groups(lg.out.drop_last()) == Seq::<GroupView>::empty());
    if v.files.len() == 0 {
        assert(printed_files(lf.out) == printed_files(lf.out.drop_last()) + Seq::<FileView>::empty());
        assert(printed_files(lf.out) =~= v.files);
    } else {
        assert(printed_files(lf.out) == printed_files(lf.out.drop_last()) + v.files);
        assert(printed_files(lf.out) =~= v.files);
    }
    if v.groups.len() == 0 {
        assert(printed_groups(lg.out) == printed_groups(lg.out.drop_last()) + Seq::<GroupView>::empty());
        assert(printed_groups(lg.out) =~= v.groups);
    } else {
        assert(printed_groups(lg.out) == printed_groups(lg.out.drop_last()) + v.groups);
        assert(printed_groups(lg.out) =~= v.groups);
    }
}

/// Untracking a tracked file succeeds, the file is gone and no group
/// keeps it; every other file, every group and every other link stays.
/// Untracking an id that no file has fails and changes nothing.
pub proof fn law_untracked_file_is_gone(v: DbView, c: ColorsView, file_id: i64, collected: Seq<Seq<char>>)
    requires
        v.wf(),
    ensures
        ({
            let o = run_outcome(v, c, Commands::UntrackFile { file_id }, collected);
            &&& o.result is Ok <==> v.has_file(file_id)
            &&& !v.has_file(file_id) ==> o.db == v
            &&& v.has_file(file_id) ==> {
                &&& !o.db.has_file(file_id)
                &&& forall|f: FileView| #[trigger] o.db.files.contains(f) <==> v.files.contains(f) && f.id
                    != file_id
                &&& o.db.groups == v.groups
                &&& o.db.tags == v.tags
                &&& forall|p: (i64, i64)| #[trigger] o.db.group_files.contains(p) <==> v.group_files.contains(p)
                    && p.1 != file_id
                &&& o.db.group_children == v.group_children
                &&& o.db.group_tags == v.group_tags
            }
        }),
{
    reveal(untrack_file_outcome);
    let o = run_outcome(v, c, Commands::UntrackFile { file_id }, collected);
    if v.has_file(file_id) {
        let k = choose|k: int| 0 <= k < v.files.len() && v.file_ids()[k] == file_id;
        assert(v.file_ids()[k] == v.files[k].id);
        assert(v.files.contains(v.files[k]));
        crate::db::database::lemma_file_by_id(v, v.files[k]);
        crate::db::database::lemma_file_index(v, k);
        let i = v.file_index(file_id);
        assert(i == k);
        let w = v.without_file(i);
        assert(o.db == w);
        crate::db::database::lemma_wf_without_file(v, i);
        lemma_files_ascending(v);
        assert forall|f: FileView| #[trigger] w.files.contains(f) <==> v.files.contains(f) && f.id != file_id by {
            if w.files.contains(f) {
                let m = choose|m: int| 0 <= m < w.files.len() && w.files[m] == f;
                if m < i {
                    assert(v.files[m] == f);
                    assert(v.files[m].id < v.files[i].id);
                } else {
                    assert(v.files[m + 1] == f);
                    assert(v.files[i].id < v.files[m + 1].id);
                }
            }
            if v.files.contains(f) && f.id != file_id {
                let m = choose|m: int| 0 <= m < v.files.len() && v.files[m] == f;
                assert(m != i);
                if m < i {
                    assert(w.files[m] == f);
                } else {
                    assert(w.files[m - 1] == f);
                }
            }
        }
        assert(!w.has_file(file_id)) by {
            if w.has_file(file_id) {
                let m = choose|m: int| 0 <= m < w.file_ids().len() && w.file_ids()[m] == file_id;
                assert(w.file_ids()[m] == w.files[m].id);
                assert(w.files.contains(w.files[m]));
            }
        }
    } else {
        assert(v.file_by_id(file_id) is None);
    }
}

/// Tagging an existing group with a name that a tag has already (up to
/// ASCII case) links that tag and creates no other: the tags stay as they
/// were. Taking a tag from an existing group removes exactly its link;
/// naming a tag that does not exist fails and changes nothing.
pub proof fn law_tags_follow_the_command(
    v: DbView,
    c: ColorsView,
    group_id: i64,
    t: TagView,
    name: String,
    collected: Seq<Seq<char>>,
)
    requires
        v.wf(),
        v.has_group(group_id),
        v.tags.contains(t),
        nocase_eq(t.name, name@),
    ensures
        ({
            let add = run_outcome(v, c, Commands::GroupAddTag { group_id, tag: name }, collected);
            let rem = run_outcome(v, c, Commands::GroupRemoveTag { group_id, tag: name }, collected);
            &&& add.result is Ok
            &&& add.db == DbView { group_tags: v.group_tags.insert((group_id, t.id)), ..v }
            &&& rem.result is Ok
            &&& rem.db == DbView { group_tags: v.group_tags.remove((group_id, t.id)), ..v }
        }),
{
    reveal(group_add_tag_outcome);
    reveal(group_remove_tag_outcome);
    crate::db::database::lemma_tag_by_name(v, t, name@);
    let k = choose|k: int| 0 <= k < v.tags.len() && v.tags[k] == t;
    assert(v.tag_ids()[k] == t.id);
    assert(v.has_tag(t.id));
}

/// Taking from an existing group a tag that no tag name matches fails and
/// changes nothing; in particular no tag is created.
pub proof fn law_removing_a_missing_tag_changes_nothing(
    v: DbView,
    c: ColorsView,
    group_id: i64,
    name: String,
    collected: Seq<Seq<char>>,
)
    requires
        v.wf(),
        v.has_group(group_id),
        !v.has_tag_name(name@),
    ensures
        ({
            let rem = run_outcome(v, c, Commands::GroupRemoveTag { group_id, tag: name }, collected);
            &&& rem.result is Err
            &&& rem.db == v
        }),
{
    reveal(group_remove_tag_outcome);
}

} // verus!
