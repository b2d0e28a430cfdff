use vstd::prelude::*;
use crate::db::database::{
    DbView,
    eq_up_to_times,
    lemma_eq_up_to_times,
    lemma_file_by_id,
    lemma_group_by_id,
    lemma_ids_valid_push,
    next_id,
};
use crate::domain::file::FileView;
use crate::domain::group::GroupView;

verus! {

/// Every file and group row of `new` whose id `old` has is the very row
/// that `old` holds: rows are added or dropped, never rewritten, and a row
/// keeps its creation time.
pub open spec fn rows_kept(old: DbView, new: DbView) -> bool {
    &&& forall|f: FileView| #[trigger] new.files.contains(f) && old.has_file(f.id) ==> old.files.contains(f)
    &&& forall|g: GroupView| #[trigger] new.groups.contains(g) && old.has_group(g.id) ==> old.groups.contains(g)
}

/// Every file and group row of `old` is still a row of `new`.
pub open spec fn rows_stay(old: DbView, new: DbView) -> bool {
    &&& forall|f: FileView| #[trigger] old.files.contains(f) ==> new.files.contains(f)
    &&& forall|g: GroupView| #[trigger] old.groups.contains(g) ==> new.groups.contains(g)
}

/// When every old row stays, the ids of a well-formed database say that a
/// row under an old id is the old row.
pub proof fn lemma_rows_stay_kept(old: DbView, new: DbView)
    requires
        new.wf(),
        rows_stay(old, new),
    ensures
        rows_kept(old, new),
{
    assert forall|f: FileView| #[trigger] new.files.contains(f) && old.has_file(f.id) implies old.files.contains(f) by {
        let k = choose|k: int| 0 <= k < old.file_ids().len() && old.file_ids()[k] == f.id;
        let g = old.files[k];
        assert(old.files.contains(g));
        lemma_file_by_id(new, f);
        lemma_file_by_id(new, g);
    }
    assert forall|g: GroupView| #[trigger] new.groups.contains(g) && old.has_group(g.id) implies old.groups.contains(g) by {
        let k = choose|k: int| 0 <= k < old.group_ids().len() && old.group_ids()[k] == g.id;
        let h = old.groups[k];
        assert(old.groups.contains(h));
        lemma_group_by_id(new, g);
        lemma_group_by_id(new, h);
    }
}

/// A database that agrees with `v` up to creation times and keeps the
/// rows of `v` is `v`.
pub proof fn lemma_rows_exact(a: DbView, v: DbView)
    requires
        v.wf(),
        eq_up_to_times(a, v),
        rows_kept(v, a),
    ensures
        a == v,
{
    lemma_eq_up_to_times(a, v);
    assert forall|i: int| 0 <= i < a.files.len() implies a.files[i] == v.files[i] by {
        let f = a.files[i];
        assert(a.files.contains(f));
        assert(v.file_ids()[i] == f.id);
        assert(v.has_file(f.id));
        assert(v.files.contains(v.files[i]));
        lemma_file_by_id(v, f);
        lemma_file_by_id(v, v.files[i]);
    }
    assert forall|i: int| 0 <= i < a.groups.len() implies a.groups[i] == v.groups[i] by {
        let g = a.groups[i];
        assert(a.groups.contains(g));
        assert(v.group_ids()[i] == g.id);
        assert(v.has_group(g.id));
        assert(v.groups.contains(v.groups[i]));
        lemma_group_by_id(v, g);
        lemma_group_by_id(v, v.groups[i]);
    }
    assert(a.files =~= v.files);
    assert(a.groups =~= v.groups);
}

/// A new file row under the next id keeps every row.
pub proof fn lemma_rows_with_file(v: DbView, f: FileView)
    requires
        v.wf(),
        next_id(v.file_ids()) == Some(f.id),
    ensures
        rows_stay(v, v.with_file(f)),
        rows_kept(v, v.with_file(f)),
{
    let w = v.with_file(f);
    lemma_ids_valid_push(v.file_ids(), f.id);
    assert forall|x: FileView| #[trigger] v.files.contains(x) implies w.files.contains(x) by {
        let k = choose|k: int| 0 <= k < v.files.len() && v.files[k] == x;
        assert(w.files[k] == x);
    }
    assert forall|x: FileView| #[trigger] w.files.contains(x) && v.has_file(x.id) implies v.files.contains(x) by {
        let k = choose|k: int| 0 <= k < w.files.len() && w.files[k] == x;
        if k == v.files.len() {
            assert(x == f);
        } else {
            assert(v.files[k] == x);
        }
    }
}

/// A new group row under the next id keeps every row.
pub proof fn lemma_rows_with_group(v: DbView, g: GroupView)
    requires
        v.wf(),
        next_id(v.group_ids()) == Some(g.id),
    ensures
        rows_stay(v, v.with_group(g)),
        rows_kept(v, v.with_group(g)),
{
    let w = v.with_group(g);
    lemma_ids_valid_push(v.group_ids(), g.id);
    assert forall|x: GroupView| #[trigger] v.groups.contains(x) implies w.groups.contains(x) by {
        let k = choose|k: int| 0 <= k < v.groups.len() && v.groups[k] == x;
        assert(w.groups[k] == x);
    }
    assert forall|x: GroupView| #[trigger] w.groups.contains(x) && v.has_group(x.id) implies v.groups.contains(x) by {
        let k = choose|k: int| 0 <= k < w.groups.len() && w.groups[k] == x;
        if k == v.groups.len() {
            assert(x == g);
        } else {
            assert(v.groups[k] == x);
        }
    }
}

} // verus!
