use vstd::prelude::*;
use crate::domain::file::{File, FileView};
use crate::domain::group::{Group, GroupView};
use crate::domain::tag::{Tag, TagView};

verus! {

/// Why a statement on the database was refused.
#[derive(Debug, PartialEq, Eq)]
pub enum DbError {
    /// A link would name a group, file or tag that does not exist.
    ForeignKeyViolation,
    /// A lookup that expects at most one row matched several.
    MoreThanOneRow,
    /// No fresh id is left above the largest id of the table.
    Full,
}

/// The ids of a table in storage order: positive and strictly ascending.
pub open spec fn ids_valid(ids: Seq<i64>) -> bool {
    &&& forall|i: int, j: int| 0 <= i < j < ids.len() ==> ids[i] < ids[j]
    &&& forall|i: int| 0 <= i < ids.len() ==> ids[i] > 0
}

/// The id that a row inserted into a table with the given ids receives:
/// one more than the largest id, or 1 in an empty table; none once the
/// largest id is `i64::MAX`.
pub open spec fn next_id(ids: Seq<i64>) -> Option<i64> {
    if ids.len() == 0 {
        Some(1)
    } else if ids.last() == i64::MAX {
        None
    } else {
        Some((ids.last() + 1) as i64)
    }
}

/// A character's code with ASCII capitals mapped to small letters.
pub open spec fn ascii_fold(c: char) -> u32 {
    if 65 <= (c as u32) <= 90 {
        (c as u32 + 32) as u32
    } else {
        c as u32
    }
}

/// Two texts are equal when ASCII letters are compared without their case.
pub open spec fn nocase_eq(a: Seq<char>, b: Seq<char>) -> bool {
    &&& a.len() == b.len()
    &&& forall|i: int| 0 <= i < a.len() ==> #[trigger] ascii_fold(a[i]) == ascii_fold(b[i])
}

/// The contents of the database: three tables of entities, kept in
/// ascending id order, and three link tables.
pub struct DbView {
    pub files: Seq<FileView>,
    pub groups: Seq<GroupView>,
    pub tags: Seq<TagView>,
    /// Pairs (group id, file id).
    pub group_files: Set<(i64, i64)>,
    /// Pairs (parent group id, child group id).
    pub group_children: Set<(i64, i64)>,
    /// Pairs (group id, tag id).
    pub group_tags: Set<(i64, i64)>,
}

impl DbView {
    pub open spec fn file_ids(self) -> Seq<i64> {
        self.files.map_values(|f: FileView| f.id)
    }

    pub open spec fn group_ids(self) -> Seq<i64> {
        self.groups.map_values(|g: GroupView| g.id)
    }

    pub open spec fn tag_ids(self) -> Seq<i64> {
        self.tags.map_values(|t: TagView| t.id)
    }

    pub open spec fn has_file(self, id: i64) -> bool {
        self.file_ids().contains(id)
    }

    pub open spec fn has_group(self, id: i64) -> bool {
        self.group_ids().contains(id)
    }

    pub open spec fn has_tag(self, id: i64) -> bool {
        self.tag_ids().contains(id)
    }

    /// Some tracked file has exactly this path.
    pub open spec fn has_path(self, path: Seq<char>) -> bool {
        exists|i: int| 0 <= i < self.files.len() && #[trigger] self.files[i].path == path
    }

    /// Some tag has this name, up to the case of ASCII letters.
    pub open spec fn has_tag_name(self, name: Seq<char>) -> bool {
        exists|i: int| 0 <= i < self.tags.len() && nocase_eq(#[trigger] self.tags[i].name, name)
    }

    /// The invariant of the database: ids are positive and ascending,
    /// paths are unique, tag names are unique up to ASCII case, and every
    /// link names rows that exist.
    pub open spec fn wf(self) -> bool {
        &&& ids_valid(self.file_ids())
        &&& ids_valid(self.group_ids())
        &&& ids_valid(self.tag_ids())
        &&& forall|i: int, j: int|
            0 <= i < j < self.files.len() ==> #[trigger] self.files[i].path != #[trigger] self.files[j].path
        &&& forall|i: int, j: int|
            0 <= i < j < self.tags.len() ==> !nocase_eq(
                #[trigger] self.tags[i].name,
                #[trigger] self.tags[j].name,
            )
        &&& forall|g: i64, f: i64|
            #[trigger] self.group_files.contains((g, f)) ==> self.has_group(g) && self.has_file(f)
        &&& forall|p: i64, c: i64|
            #[trigger] self.group_children.contains((p, c)) ==> self.has_group(p)
                && self.has_group(c)
        &&& forall|g: i64, t: i64|
            #[trigger] self.group_tags.contains((g, t)) ==> self.has_group(g) && self.has_tag(t)
    }

    /// The empty database.
    pub open spec fn empty() -> DbView {
        DbView {
            files: Seq::empty(),
            groups: Seq::empty(),
            tags: Seq::empty(),
            group_files: Set::empty(),
            group_children: Set::empty(),
            group_tags: Set::empty(),
        }
    }
}

/// The database that the library works on: the tables of files, groups
/// and tags and the links between them.
pub struct Database {
    pub files: Vec<File>,
    pub groups: Vec<Group>,
    pub tags: Vec<Tag>,
    pub group_files: Vec<(i64, i64)>,
    pub group_children: Vec<(i64, i64)>,
    pub group_tags: Vec<(i64, i64)>,
}

pub open spec fn view_files(s: Seq<File>) -> Seq<FileView> {
    s.map_values(|f: File| f@)
}

pub open spec fn view_groups(s: Seq<Group>) -> Seq<GroupView> {
    s.map_values(|g: Group| g@)
}

pub open spec fn view_tags(s: Seq<Tag>) -> Seq<TagView> {
    s.map_values(|t: Tag| t@)
}

impl View for Database {
    type V = DbView;

    open spec fn view(&self) -> DbView {
        DbView {
            files: view_files(self.files@),
            groups: view_groups(self.groups@),
            tags: view_tags(self.tags@),
            group_files: self.group_files@.to_set(),
            group_children: self.group_children@.to_set(),
            group_tags: self.group_tags@.to_set(),
        }
    }
}

impl Database {
    /// The invariant of the view, and no link stored twice (each link table
    /// has its pair as primary key).
    pub open spec fn wf(&self) -> bool {
        &&& self@.wf()
        &&& self.group_files@.no_duplicates()
        &&& self.group_children@.no_duplicates()
        &&& self.group_tags@.no_duplicates()
    }

    /// An empty database.
    pub fn new() -> (db: Database)
        ensures
            db.wf(),
            db@ == DbView::empty(),
    {
        let db = Database {
            files: Vec::new(),
            groups: Vec::new(),
            tags: Vec::new(),
            group_files: Vec::new(),
            group_children: Vec::new(),
            group_tags: Vec::new(),
        };
        assert(db@.files =~= Seq::empty());
        assert(db@.groups =~= Seq::empty());
        assert(db@.tags =~= Seq::empty());
        assert(db@.group_files =~= Set::empty());
        assert(db@.group_children =~= Set::empty());
        assert(db@.group_tags =~= Set::empty());
        db
    }
}

pub proof fn lemma_view_files_push(s: Seq<File>, x: File)
    ensures
        view_files(s.push(x)) == view_files(s).push(x@),
{
    assert(view_files(s.push(x)) =~= view_files(s).push(x@));
}

pub proof fn lemma_view_groups_push(s: Seq<Group>, x: Group)
    ensures
        view_groups(s.push(x)) == view_groups(s).push(x@),
{
    assert(view_groups(s.push(x)) =~= view_groups(s).push(x@));
}

pub proof fn lemma_view_tags_push(s: Seq<Tag>, x: Tag)
    ensures
        view_tags(s.push(x)) == view_tags(s).push(x@),
{
    assert(view_tags(s.push(x)) =~= view_tags(s).push(x@));
}

pub proof fn lemma_view_files_remove(s: Seq<File>, i: int)
    requires
        0 <= i < s.len(),
    ensures
        view_files(s.remove(i)) == view_files(s).remove(i),
{
    assert(view_files(s.remove(i)) =~= view_files(s).remove(i));
}

pub proof fn lemma_view_groups_remove(s: Seq<Group>, i: int)
    requires
        0 <= i < s.len(),
    ensures
        view_groups(s.remove(i)) == view_groups(s).remove(i),
{
    assert(view_groups(s.remove(i)) =~= view_groups(s).remove(i));
}

pub proof fn lemma_view_tags_remove(s: Seq<Tag>, i: int)
    requires
        0 <= i < s.len(),
    ensures
        view_tags(s.remove(i)) == view_tags(s).remove(i),
{
    assert(view_tags(s.remove(i)) =~= view_tags(s).remove(i));
}

/// Appending an id above all others keeps a table's ids valid.
pub proof fn lemma_ids_valid_push(ids: Seq<i64>, id: i64)
    requires
        ids_valid(ids),
        next_id(ids) == Some(id),
    ensures
        ids_valid(ids.push(id)),
        forall|x: i64| ids.contains(x) ==> #[trigger] ids.push(id).contains(x),
        !ids.contains(id),
{
    let n = ids.push(id);
    assert forall|i: int, j: int| 0 <= i < j < n.len() implies n[i] < n[j] by {
        if j == ids.len() && ids.len() > 0 {
            assert(ids[i] <= ids.last());
        }
    }
    assert forall|x: i64| ids.contains(x) implies #[trigger] n.contains(x) by {
        let k = choose|k: int| 0 <= k < ids.len() && ids[k] == x;
        assert(n[k] == x);
    }
    if ids.contains(id) {
        let k = choose|k: int| 0 <= k < ids.len() && ids[k] == id;
        assert(ids[k] <= ids.last());
    }
}

/// Removing an entry keeps a table's ids valid; the other ids stay.
pub proof fn lemma_ids_valid_remove(ids: Seq<i64>, i: int)
    requires
        ids_valid(ids),
        0 <= i < ids.len(),
    ensures
        ids_valid(ids.remove(i)),
        forall|x: i64| ids.contains(x) && x != ids[i] <==> #[trigger] ids.remove(i).contains(x),
{
    let n = ids.remove(i);
    assert forall|x: i64| ids.contains(x) && x != ids[i] implies #[trigger] n.contains(x) by {
        let k = choose|k: int| 0 <= k < ids.len() && ids[k] == x;
        if k < i {
            assert(n[k] == x);
        } else {
            assert(n[k - 1] == x);
        }
    }
    assert forall|x: i64| #[trigger] n.contains(x) implies ids.contains(x) && x != ids[i] by {
        let k = choose|k: int| 0 <= k < n.len() && n[k] == x;
        if k < i {
            assert(ids[k] == x);
        } else {
            assert(ids[k + 1] == x);
        }
    }
}

impl DbView {
    /// This database with one more file row.
    pub open spec fn with_file(self, f: FileView) -> DbView {
        DbView { files: self.files.push(f), ..self }
    }

    /// This database with one more group row.
    pub open spec fn with_group(self, g: GroupView) -> DbView {
        DbView { groups: self.groups.push(g), ..self }
    }

    /// This database with one more tag row.
    pub open spec fn with_tag(self, t: TagView) -> DbView {
        DbView { tags: self.tags.push(t), ..self }
    }
}

pub proof fn lemma_wf_with_file(v: DbView, f: FileView)
    requires
        v.wf(),
        !v.has_path(f.path),
        next_id(v.file_ids()) == Some(f.id),
    ensures
        v.with_file(f).wf(),
        v.with_file(f).file_ids() == v.file_ids().push(f.id),
{
    let w = v.with_file(f);
    assert(w.file_ids() =~= v.file_ids().push(f.id));
    lemma_ids_valid_push(v.file_ids(), f.id);
    assert forall|i: int, j: int|
        0 <= i < j < w.files.len() implies #[trigger] w.files[i].path != #[trigger] w.files[j].path by {
        if j == v.files.len() {
            assert(v.files[i].path == w.files[i].path);
        }
    }
}

pub proof fn lemma_wf_with_group(v: DbView, g: GroupView)
    requires
        v.wf(),
        next_id(v.group_ids()) == Some(g.id),
    ensures
        v.with_group(g).wf(),
        v.with_group(g).group_ids() == v.group_ids().push(g.id),
{
    let w = v.with_group(g);
    assert(w.group_ids() =~= v.group_ids().push(g.id));
    lemma_ids_valid_push(v.group_ids(), g.id);
}

pub proof fn lemma_wf_with_tag(v: DbView, t: TagView)
    requires
        v.wf(),
        !v.has_tag_name(t.name),
        next_id(v.tag_ids()) == Some(t.id),
    ensures
        v.with_tag(t).wf(),
        v.with_tag(t).tag_ids() == v.tag_ids().push(t.id),
{
    let w = v.with_tag(t);
    assert(w.tag_ids() =~= v.tag_ids().push(t.id));
    lemma_ids_valid_push(v.tag_ids(), t.id);
    assert forall|i: int, j: int|
        0 <= i < j < w.tags.len() implies !nocase_eq(
        #[trigger] w.tags[i].name,
        #[trigger] w.tags[j].name,
    ) by {
        if j == v.tags.len() {
            assert(v.tags[i].name == w.tags[i].name);
            if nocase_eq(w.tags[i].name, w.tags[j].name) {
                lemma_nocase_eq_symmetric(w.tags[i].name, t.name);
                assert(nocase_eq(v.tags[i].name, t.name));
            }
        }
    }
}

pub proof fn lemma_nocase_eq_symmetric(a: Seq<char>, b: Seq<char>)
    ensures
        nocase_eq(a, b) == nocase_eq(b, a),
{
}

impl DbView {
    /// This database without the file at position `i` and its links.
    pub open spec fn without_file(self, i: int) -> DbView {
        let id = self.files[i].id;
        DbView {
            files: self.files.remove(i),
            group_files: self.group_files.filter(|p: (i64, i64)| p.1 != id),
            ..self
        }
    }

    /// This database without the group at position `i` and every link
    /// that names it.
    pub open spec fn without_group(self, i: int) -> DbView {
        let id = self.groups[i].id;
        DbView {
            groups: self.groups.remove(i),
            group_files: self.group_files.filter(|p: (i64, i64)| p.0 != id),
            group_children: self.group_children.filter(|p: (i64, i64)| p.0 != id && p.1 != id),
            group_tags: self.group_tags.filter(|p: (i64, i64)| p.0 != id),
            ..self
        }
    }

    /// This database without the tag at position `i` and its links.
    pub open spec fn without_tag(self, i: int) -> DbView {
        let id = self.tags[i].id;
        DbView {
            tags: self.tags.remove(i),
            group_tags: self.group_tags.filter(|p: (i64, i64)| p.1 != id),
            ..self
        }
    }
}

pub proof fn lemma_wf_without_file(v: DbView, i: int)
    requires
        v.wf(),
        0 <= i < v.files.len(),
    ensures
        v.without_file(i).wf(),
        v.without_file(i).file_ids() == v.file_ids().remove(i),
{
    let w = v.without_file(i);
    assert(w.file_ids() =~= v.file_ids().remove(i));
    lemma_ids_valid_remove(v.file_ids(), i);
    assert forall|a: int, b: int|
        0 <= a < b < w.files.len() implies #[trigger] w.files[a].path != #[trigger] w.files[b].path by {
        let a2 = if a < i { a } else { a + 1 };
        let b2 = if b < i { b } else { b + 1 };
        assert(w.files[a] == v.files[a2]);
        assert(w.files[b] == v.files[b2]);
    }
    assert forall|g: i64, f: i64| #[trigger] w.group_files.contains((g, f)) implies w.has_group(g)
        && w.has_file(f) by {
        assert(v.file_ids()[i] == v.files[i].id);
    }
}

pub proof fn lemma_wf_without_group(v: DbView, i: int)
    requires
        v.wf(),
        0 <= i < v.groups.len(),
    ensures
        v.without_group(i).wf(),
        v.without_group(i).group_ids() == v.group_ids().remove(i),
{
    let w = v.without_group(i);
    assert(w.group_ids() =~= v.group_ids().remove(i));
    lemma_ids_valid_remove(v.group_ids(), i);
    assert(v.group_ids()[i] == v.groups[i].id);
    assert forall|g: i64, f: i64| #[trigger] w.group_files.contains((g, f)) implies w.has_group(g)
        && w.has_file(f) by {
    }
    assert forall|p: i64, c: i64| #[trigger] w.group_children.contains((p, c)) implies w.has_group(
        p,
    ) && w.has_group(c) by {
    }
    assert forall|g: i64, t: i64| #[trigger] w.group_tags.contains((g, t)) implies w.has_group(g)
        && w.has_tag(t) by {
    }
}

pub proof fn lemma_wf_without_tag(v: DbView, i: int)
    requires
        v.wf(),
        0 <= i < v.tags.len(),
    ensures
        v.without_tag(i).wf(),
        v.without_tag(i).tag_ids() == v.tag_ids().remove(i),
{
    let w = v.without_tag(i);
    assert(w.tag_ids() =~= v.tag_ids().remove(i));
    lemma_ids_valid_remove(v.tag_ids(), i);
    assert(v.tag_ids()[i] == v.tags[i].id);
    assert forall|a: int, b: int|
        0 <= a < b < w.tags.len() implies !nocase_eq(
        #[trigger] w.tags[a].name,
        #[trigger] w.tags[b].name,
    ) by {
        let a2 = if a < i { a } else { a + 1 };
        let b2 = if b < i { b } else { b + 1 };
        assert(w.tags[a] == v.tags[a2]);
        assert(w.tags[b] == v.tags[b2]);
    }
    assert forall|g: i64, t: i64| #[trigger] w.group_tags.contains((g, t)) implies w.has_group(g)
        && w.has_tag(t) by {
    }
}

impl DbView {
    /// The files linked to group `g`, in ascending id order.
    pub open spec fn files_in_group(self, g: i64) -> Seq<FileView> {
        self.files.filter(self.file_in_group(g))
    }

    pub open spec fn file_in_group(self, g: i64) -> spec_fn(FileView) -> bool {
        |f: FileView| self.group_files.contains((g, f.id))
    }

    /// The children of group `p`, in ascending id order.
    pub open spec fn children_of(self, p: i64) -> Seq<GroupView> {
        self.groups.filter(self.child_of(p))
    }

    pub open spec fn child_of(self, p: i64) -> spec_fn(GroupView) -> bool {
        |g: GroupView| self.group_children.contains((p, g.id))
    }

    /// The tags of group `g`, in ascending id order.
    pub open spec fn tags_of_group(self, g: i64) -> Seq<TagView> {
        self.tags.filter(self.tag_of_group(g))
    }

    pub open spec fn tag_of_group(self, g: i64) -> spec_fn(TagView) -> bool {
        |t: TagView| self.group_tags.contains((g, t.id))
    }

    /// The groups with exactly this name, in ascending id order.
    pub open spec fn groups_named(self, name: Seq<char>) -> Seq<GroupView> {
        self.groups.filter(named(name))
    }
}

pub open spec fn named(name: Seq<char>) -> spec_fn(GroupView) -> bool {
    |g: GroupView| g.name == name
}

/// A file without its creation time.
pub open spec fn file_key(f: FileView) -> (i64, Seq<char>) {
    (f.id, f.path)
}

/// A group without its creation time.
pub open spec fn group_key(g: GroupView) -> (i64, Seq<char>, Seq<char>) {
    (g.id, g.name, g.description)
}

/// Two databases hold the same rows and links when creation times are not
/// compared.
pub open spec fn eq_up_to_times(a: DbView, b: DbView) -> bool {
    &&& a.files.map_values(|f: FileView| file_key(f)) == b.files.map_values(|f: FileView| file_key(f))
    &&& a.groups.map_values(|g: GroupView| group_key(g)) == b.groups.map_values(
        |g: GroupView| group_key(g),
    )
    &&& a.tags == b.tags
    &&& a.group_files == b.group_files
    &&& a.group_children == b.group_children
    &&& a.group_tags == b.group_tags
}

/// Databases that agree up to creation times agree on every id, path and
/// name, and so on the outcome of every statement but the times it reads.
pub proof fn lemma_eq_up_to_times(a: DbView, b: DbView)
    requires
        eq_up_to_times(a, b),
    ensures
        a.file_ids() == b.file_ids(),
        a.group_ids() == b.group_ids(),
        a.tag_ids() == b.tag_ids(),
        a.files.len() == b.files.len(),
        a.groups.len() == b.groups.len(),
        forall|i: int| 0 <= i < a.files.len() ==> #[trigger] a.files[i].path == b.files[i].path,
        forall|i: int| 0 <= i < a.files.len() ==> #[trigger] a.files[i].id == b.files[i].id,
        forall|i: int| 0 <= i < a.groups.len() ==> #[trigger] a.groups[i].name == b.groups[i].name,
        forall|i: int| 0 <= i < a.groups.len() ==> #[trigger] a.groups[i].id == b.groups[i].id,
        forall|i: int|
            0 <= i < a.groups.len() ==> #[trigger] a.groups[i].description == b.groups[i].description,
        forall|p: Seq<char>| a.has_path(p) == b.has_path(p),
        a.wf() == b.wf(),
        eq_up_to_times(b, a),
{
    let fa = a.files.map_values(|f: FileView| file_key(f));
    let fb = b.files.map_values(|f: FileView| file_key(f));
    let ga = a.groups.map_values(|g: GroupView| group_key(g));
    let gb = b.groups.map_values(|g: GroupView| group_key(g));
    assert(fa.len() == fb.len());
    assert(ga.len() == gb.len());
    assert forall|i: int| 0 <= i < a.files.len() implies (#[trigger] a.files[i]).path == b.files[i].path
        && a.files[i].id == b.files[i].id by {
        assert(fa[i] == fb[i]);
    }
    assert forall|i: int| 0 <= i < a.groups.len() implies (#[trigger] a.groups[i]).name == b.groups[i].name
        && a.groups[i].id == b.groups[i].id && a.groups[i].description == b.groups[i].description by {
        assert(ga[i] == gb[i]);
    }
    assert(a.file_ids() =~= b.file_ids()) by {
        assert forall|i: int| 0 <= i < a.files.len() implies a.file_ids()[i] == b.file_ids()[i] by {
            assert(a.files[i].id == b.files[i].id);
        }
    }
    assert(a.group_ids() =~= b.group_ids()) by {
        assert forall|i: int| 0 <= i < a.groups.len() implies a.group_ids()[i] == b.group_ids()[i] by {
            assert(a.groups[i].id == b.groups[i].id);
        }
    }
    assert forall|p: Seq<char>| a.has_path(p) implies b.has_path(p) by {
        let i = choose|i: int| 0 <= i < a.files.len() && #[trigger] a.files[i].path == p;
        assert(b.files[i].path == p);
    }
    assert forall|p: Seq<char>| b.has_path(p) implies a.has_path(p) by {
        let i = choose|i: int| 0 <= i < b.files.len() && #[trigger] b.files[i].path == p;
        assert(a.files[i].path == p);
    }
    if a.wf() {
        assert forall|i: int, j: int|
            0 <= i < j < b.files.len() implies #[trigger] b.files[i].path != #[trigger] b.files[j].path by {
            assert(a.files[i].path != a.files[j].path);
            assert(a.files[i].path == b.files[i].path);
            assert(a.files[j].path == b.files[j].path);
        }
    }
    if b.wf() {
        assert forall|i: int, j: int|
            0 <= i < j < a.files.len() implies #[trigger] a.files[i].path != #[trigger] a.files[j].path by {
            assert(b.files[i].path != b.files[j].path);
            assert(a.files[i].path == b.files[i].path);
            assert(a.files[j].path == b.files[j].path);
        }
    }
}

impl Database {
    /// A copy of this database.
    pub fn duplicate(&self) -> (res: Database)
        requires
            self.wf(),
        ensures
            res@ == self@,
            res.wf(),
    {
        let files = crate::db::file_repo::fetch_files(self);
        let groups = crate::db::group_repo::fetch_groups(self);
        let tags = crate::db::tag_repo::fetch_tags(self);
        let res = Database {
            files,
            groups,
            tags,
            group_files: copy_pairs(&self.group_files),
            group_children: copy_pairs(&self.group_children),
            group_tags: copy_pairs(&self.group_tags),
        };
        assert(res@ =~= self@);
        res
    }
}

fn copy_pairs(v: &Vec<(i64, i64)>) -> (res: Vec<(i64, i64)>)
    ensures
        res@ == v@,
{
    let mut res: Vec<(i64, i64)> = Vec::new();
    let mut i: usize = 0;
    while i < v.len()
        invariant
            0 <= i <= v.len(),
            res@ == v@.take(i as int),
        decreases v.len() - i,
    {
        res.push(v[i]);
        assert(v@.take(i + 1) =~= v@.take(i as int).push(v@[i as int]));
        i = i + 1;
    }
    assert(v@.take(i as int) =~= v@);
    res
}

pub proof fn lemma_eq_up_to_times_with_file(a: DbView, b: DbView, fa: FileView, fb: FileView)
    requires
        eq_up_to_times(a, b),
        file_key(fa) == file_key(fb),
    ensures
        eq_up_to_times(a.with_file(fa), b.with_file(fb)),
{
    let ka = a.files.map_values(|f: FileView| file_key(f));
    let kb = b.files.map_values(|f: FileView| file_key(f));
    assert(a.with_file(fa).files.map_values(|f: FileView| file_key(f)) =~= ka.push(file_key(fa)));
    assert(b.with_file(fb).files.map_values(|f: FileView| file_key(f)) =~= kb.push(file_key(fb)));
}

pub proof fn lemma_eq_up_to_times_with_group(a: DbView, b: DbView, ga: GroupView, gb: GroupView)
    requires
        eq_up_to_times(a, b),
        group_key(ga) == group_key(gb),
    ensures
        eq_up_to_times(a.with_group(ga), b.with_group(gb)),
{
    let ka = a.groups.map_values(|g: GroupView| group_key(g));
    let kb = b.groups.map_values(|g: GroupView| group_key(g));
    assert(a.with_group(ga).groups.map_values(|g: GroupView| group_key(g)) =~= ka.push(group_key(ga)));
    assert(b.with_group(gb).groups.map_values(|g: GroupView| group_key(g)) =~= kb.push(group_key(gb)));
}

pub proof fn lemma_eq_up_to_times_refl(a: DbView)
    ensures
        eq_up_to_times(a, a),
{
}

impl DbView {
    /// The file with this id, if it is tracked.
    pub open spec fn file_by_id(self, id: i64) -> Option<FileView> {
        if self.has_file(id) {
            Some(choose|f: FileView| self.files.contains(f) && f.id == id)
        } else {
            None
        }
    }

    /// The group with this id, if it exists.
    pub open spec fn group_by_id(self, id: i64) -> Option<GroupView> {
        if self.has_group(id) {
            Some(choose|g: GroupView| self.groups.contains(g) && g.id == id)
        } else {
            None
        }
    }

    /// The file tracked under exactly this path, if any.
    pub open spec fn file_by_path(self, path: Seq<char>) -> Option<FileView> {
        if self.has_path(path) {
            Some(choose|f: FileView| self.files.contains(f) && f.path == path)
        } else {
            None
        }
    }

    /// The tag whose name equals this one up to ASCII case, if any.
    pub open spec fn tag_by_name(self, name: Seq<char>) -> Option<TagView> {
        if self.has_tag_name(name) {
            Some(choose|t: TagView| self.tags.contains(t) && nocase_eq(t.name, name))
        } else {
            None
        }
    }
}

/// In a well-formed database a file is determined by its id.
pub proof fn lemma_file_by_id(v: DbView, f: FileView)
    requires
        v.wf(),
        v.files.contains(f),
    ensures
        v.file_by_id(f.id) == Some(f),
{
    let i = choose|i: int| 0 <= i < v.files.len() && v.files[i] == f;
    assert(v.file_ids()[i] == f.id);
    let g = choose|g: FileView| v.files.contains(g) && g.id == f.id;
    let j = choose|j: int| 0 <= j < v.files.len() && v.files[j] == g;
    assert(v.file_ids()[j] == g.id);
    if i < j {
        assert(v.file_ids()[i] < v.file_ids()[j]);
    } else if j < i {
        assert(v.file_ids()[j] < v.file_ids()[i]);
    }
}

/// In a well-formed database a group is determined by its id.
pub proof fn lemma_group_by_id(v: DbView, g: GroupView)
    requires
        v.wf(),
        v.groups.contains(g),
    ensures
        v.group_by_id(g.id) == Some(g),
{
    let i = choose|i: int| 0 <= i < v.groups.len() && v.groups[i] == g;
    assert(v.group_ids()[i] == g.id);
    let h = choose|h: GroupView| v.groups.contains(h) && h.id == g.id;
    let j = choose|j: int| 0 <= j < v.groups.len() && v.groups[j] == h;
    assert(v.group_ids()[j] == h.id);
    if i < j {
        assert(v.group_ids()[i] < v.group_ids()[j]);
    } else if j < i {
        assert(v.group_ids()[j] < v.group_ids()[i]);
    }
}

/// In a well-formed database a file is determined by its path.
pub proof fn lemma_file_by_path(v: DbView, f: FileView)
    requires
        v.wf(),
        v.files.contains(f),
    ensures
        v.file_by_path(f.path) == Some(f),
{
    let i = choose|i: int| 0 <= i < v.files.len() && v.files[i] == f;
    assert(v.files[i].path == f.path);
    let g = choose|g: FileView| v.files.contains(g) && g.path == f.path;
    let j = choose|j: int| 0 <= j < v.files.len() && v.files[j] == g;
    if i != j {
        if i < j {
            assert(v.files[i].path != v.files[j].path);
        } else {
            assert(v.files[j].path != v.files[i].path);
        }
    }
}

pub proof fn lemma_nocase_eq_transitive(a: Seq<char>, b: Seq<char>, c: Seq<char>)
    requires
        nocase_eq(a, b),
        nocase_eq(b, c),
    ensures
        nocase_eq(a, c),
{
    assert forall|i: int| 0 <= i < a.len() implies #[trigger] ascii_fold(a[i]) == ascii_fold(c[i]) by {
        assert(ascii_fold(a[i]) == ascii_fold(b[i]));
        assert(ascii_fold(b[i]) == ascii_fold(c[i]));
    }
}

/// In a well-formed database a tag is determined by its name up to ASCII
/// case.
pub proof fn lemma_tag_by_name(v: DbView, t: TagView, name: Seq<char>)
    requires
        v.wf(),
        v.tags.contains(t),
        nocase_eq(t.name, name),
    ensures
        v.tag_by_name(name) == Some(t),
{
    let i = choose|i: int| 0 <= i < v.tags.len() && v.tags[i] == t;
    assert(v.has_tag_name(name)) by {
        assert(nocase_eq(v.tags[i].name, name));
    }
    let u = choose|u: TagView| v.tags.contains(u) && nocase_eq(u.name, name);
    let j = choose|j: int| 0 <= j < v.tags.len() && v.tags[j] == u;
    if i != j {
        lemma_nocase_eq_symmetric(u.name, name);
        lemma_nocase_eq_transitive(t.name, name, u.name);
        if i < j {
            assert(!nocase_eq(v.tags[i].name, v.tags[j].name));
        } else {
            lemma_nocase_eq_symmetric(t.name, u.name);
            assert(!nocase_eq(v.tags[j].name, v.tags[i].name));
        }
    }
}

/// The text that a refused statement reports.
pub open spec fn db_error_text(e: DbError) -> Seq<char> {
    match e {
        DbError::ForeignKeyViolation => "FOREIGN KEY constraint failed"@,
        DbError::MoreThanOneRow => "Query returned more than one row"@,
        DbError::Full => "database or disk is full"@,
    }
}

impl DbError {
    /// The text that a refused statement reports.
    pub fn message(&self) -> (res: String)
        ensures
            res@ == db_error_text(*self),
    {
        match self {
            DbError::ForeignKeyViolation => String::from_str("FOREIGN KEY constraint failed"),
            DbError::MoreThanOneRow => String::from_str("Query returned more than one row"),
            DbError::Full => String::from_str("database or disk is full"),
        }
    }
}

impl DbView {
    /// The position of the file with this id.
    pub open spec fn file_index(self, id: i64) -> int {
        choose|i: int| 0 <= i < self.files.len() && self.files[i].id == id
    }

    /// The position of the group with this id.
    pub open spec fn group_index(self, id: i64) -> int {
        choose|i: int| 0 <= i < self.groups.len() && self.groups[i].id == id
    }
}

pub proof fn lemma_file_index(v: DbView, i: int)
    requires
        v.wf(),
        0 <= i < v.files.len(),
    ensures
        v.file_index(v.files[i].id) == i,
{
    let id = v.files[i].id;
    assert(v.files[i].id == id);
    let j = v.file_index(id);
    assert(v.file_ids()[i] == id);
    assert(v.file_ids()[j] == id);
    if i < j {
        assert(v.file_ids()[i] < v.file_ids()[j]);
    } else if j < i {
        assert(v.file_ids()[j] < v.file_ids()[i]);
    }
}

pub proof fn lemma_group_index(v: DbView, i: int)
    requires
        v.wf(),
        0 <= i < v.groups.len(),
    ensures
        v.group_index(v.groups[i].id) == i,
{
    let id = v.groups[i].id;
    assert(v.groups[i].id == id);
    let j = v.group_index(id);
    assert(v.group_ids()[i] == id);
    assert(v.group_ids()[j] == id);
    if i < j {
        assert(v.group_ids()[i] < v.group_ids()[j]);
    } else if j < i {
        assert(v.group_ids()[j] < v.group_ids()[i]);
    }
}

/// Databases that agree up to creation times find the same group by id,
/// up to its creation time.
pub proof fn lemma_group_by_id_up_to_times(a: DbView, b: DbView, id: i64)
    requires
        eq_up_to_times(a, b),
        a.wf(),
    ensures
        a.group_by_id(id) is Some <==> b.group_by_id(id) is Some,
        a.group_by_id(id) is Some ==> a.group_by_id(id).unwrap().name == b.group_by_id(id).unwrap().name,
{
    lemma_eq_up_to_times(a, b);
    if a.has_group(id) {
        let i = choose|i: int| 0 <= i < a.group_ids().len() && a.group_ids()[i] == id;
        assert(a.groups[i].id == id);
        assert(b.groups[i].id == id);
        assert(a.groups.contains(a.groups[i]));
        assert(b.groups.contains(b.groups[i]));
        lemma_group_by_id(a, a.groups[i]);
        lemma_group_by_id(b, b.groups[i]);
        assert(a.groups[i].name == b.groups[i].name);
    }
}

/// Databases that agree up to creation times find the same file by path,
/// up to its creation time.
pub proof fn lemma_file_by_path_up_to_times(a: DbView, b: DbView, path: Seq<char>)
    requires
        eq_up_to_times(a, b),
        a.wf(),
    ensures
        a.file_by_path(path) is Some <==> b.file_by_path(path) is Some,
        a.file_by_path(path) is Some ==> a.file_by_path(path).unwrap().id == b.file_by_path(path).unwrap().id,
{
    lemma_eq_up_to_times(a, b);
    if a.has_path(path) {
        let i = choose|i: int| 0 <= i < a.files.len() && #[trigger] a.files[i].path == path;
        assert(b.files[i].path == path);
        assert(a.files.contains(a.files[i]));
        assert(b.files.contains(b.files[i]));
        lemma_file_by_path(a, a.files[i]);
        lemma_file_by_path(b, b.files[i]);
        assert(a.files[i].id == b.files[i].id);
    }
}

/// Whether the ids are positive and strictly ascending.
fn check_ids(ids: &Vec<i64>) -> (res: bool)
    ensures
        res == ids_valid(ids@),
{
    let mut i: usize = 0;
    while i < ids.len()
        invariant
            0 <= i <= ids.len(),
            forall|a: int, b: int| 0 <= a < b < i ==> ids@[a] < ids@[b],
            forall|a: int| 0 <= a < i ==> ids@[a] > 0,
        decreases ids.len() - i,
    {
        if ids[i] <= 0 {
            return false;
        }
        if i > 0 && ids[i - 1] >= ids[i] {
            return false;
        }
        proof {
            assert forall|a: int, b: int| 0 <= a < b < i + 1 implies ids@[a] < ids@[b] by {
                if b == i && a < i - 1 {
                    assert(ids@[a] < ids@[i - 1]);
                }
            }
        }
        i = i + 1;
    }
    true
}

fn file_id_list(files: &Vec<File>) -> (res: Vec<i64>)
    ensures
        res@ == view_files(files@).map_values(|f: FileView| f.id),
{
    let mut res: Vec<i64> = Vec::new();
    let mut i: usize = 0;
    while i < files.len()
        invariant
            0 <= i <= files.len(),
            res@ == view_files(files@).map_values(|f: FileView| f.id).take(i as int),
        decreases files.len() - i,
    {
        res.push(files[i].id);
        assert(view_files(files@).map_values(|f: FileView| f.id).take(i + 1) =~= res@);
        i = i + 1;
    }
    assert(view_files(files@).map_values(|f: FileView| f.id).take(i as int) =~= view_files(files@).map_values(|f: FileView| f.id));
    res
}

fn group_id_list(groups: &Vec<Group>) -> (res: Vec<i64>)
    ensures
        res@ == view_groups(groups@).map_values(|g: GroupView| g.id),
{
    let mut res: Vec<i64> = Vec::new();
    let mut i: usize = 0;
    while i < groups.len()
        invariant
            0 <= i <= groups.len(),
            res@ == view_groups(groups@).map_values(|g: GroupView| g.id).take(i as int),
        decreases groups.len() - i,
    {
        res.push(groups[i].id);
        assert(view_groups(groups@).map_values(|g: GroupView| g.id).take(i + 1) =~= res@);
        i = i + 1;
    }
    assert(view_groups(groups@).map_values(|g: GroupView| g.id).take(i as int) =~= view_groups(groups@).map_values(|g: GroupView| g.id));
    res
}

fn tag_id_list(tags: &Vec<Tag>) -> (res: Vec<i64>)
    ensures
        res@ == view_tags(tags@).map_values(|t: TagView| t.id),
{
    let mut res: Vec<i64> = Vec::new();
    let mut i: usize = 0;
    while i < tags.len()
        invariant
            0 <= i <= tags.len(),
            res@ == view_tags(tags@).map_values(|t: TagView| t.id).take(i as int),
        decreases tags.len() - i,
    {
        res.push(tags[i].id);
        assert(view_tags(tags@).map_values(|t: TagView| t.id).take(i + 1) =~= res@);
        i = i + 1;
    }
    assert(view_tags(tags@).map_values(|t: TagView| t.id).take(i as int) =~= view_tags(tags@).map_values(|t: TagView| t.id));
    res
}

fn contains_id(ids: &Vec<i64>, x: i64) -> (res: bool)
    ensures
        res == ids@.contains(x),
{
    let mut i: usize = 0;
    while i < ids.len()
        invariant
            0 <= i <= ids.len(),
            forall|k: int| 0 <= k < i ==> ids@[k] != x,
        decreases ids.len() - i,
    {
        if ids[i] == x {
            assert(ids@[i as int] == x);
            return true;
        }
        i = i + 1;
    }
    false
}

/// Whether every pair names a first id from `firsts` and a second id from
/// `seconds`.
fn check_links(links: &Vec<(i64, i64)>, firsts: &Vec<i64>, seconds: &Vec<i64>) -> (res: bool)
    ensures
        res == forall|a: i64, b: i64|
            #[trigger] links@.to_set().contains((a, b)) ==> firsts@.contains(a) && seconds@.contains(b),
{
    let mut i: usize = 0;
    while i < links.len()
        invariant
            0 <= i <= links.len(),
            forall|k: int| 0 <= k < i ==> firsts@.contains((#[trigger] links@[k]).0) && seconds@.contains(links@[k].1),
        decreases links.len() - i,
    {
        let p = links[i];
        if !contains_id(firsts, p.0) || !contains_id(seconds, p.1) {
            assert(links@[i as int] == p);
            assert(links@.to_set().contains((p.0, p.1)));
            return false;
        }
        i = i + 1;
    }
    assert forall|a: i64, b: i64| #[trigger] links@.to_set().contains((a, b)) implies firsts@.contains(a)
        && seconds@.contains(b) by {
        let k = choose|k: int| 0 <= k < links@.len() && links@[k] == (a, b);
        assert(firsts@.contains(links@[k].0));
    }
    true
}

/// Whether no two files share a path.
fn check_paths_unique(files: &Vec<File>) -> (res: bool)
    ensures
        res == forall|i: int, j: int|
            0 <= i < j < files@.len() ==> #[trigger] files@[i].path@ != #[trigger] files@[j].path@,
{
    let mut j: usize = 0;
    while j < files.len()
        invariant
            0 <= j <= files.len(),
            forall|a: int, b: int| 0 <= a < b < j ==> #[trigger] files@[a].path@ != #[trigger] files@[b].path@,
        decreases files.len() - j,
    {
        let mut i: usize = 0;
        while i < j
            invariant
                0 <= i <= j < files.len(),
                forall|a: int, b: int| 0 <= a < b < j ==> #[trigger] files@[a].path@ != #[trigger] files@[b].path@,
                forall|a: int| 0 <= a < i ==> #[trigger] files@[a].path@ != files@[j as int].path@,
            decreases j - i,
        {
            if files[i].path == files[j].path {
                return false;
            }
            i = i + 1;
        }
        j = j + 1;
    }
    true
}

/// Whether no two tags have names equal up to ASCII case.
fn check_tag_names_unique(tags: &Vec<Tag>) -> (res: bool)
    ensures
        res == forall|i: int, j: int|
            0 <= i < j < tags@.len() ==> !nocase_eq(#[trigger] tags@[i].name@, #[trigger] tags@[j].name@),
{
    let mut j: usize = 0;
    while j < tags.len()
        invariant
            0 <= j <= tags.len(),
            forall|a: int, b: int| 0 <= a < b < j ==> !nocase_eq(#[trigger] tags@[a].name@, #[trigger] tags@[b].name@),
        decreases tags.len() - j,
    {
        let mut i: usize = 0;
        while i < j
            invariant
                0 <= i <= j < tags.len(),
                forall|a: int, b: int| 0 <= a < b < j ==> !nocase_eq(#[trigger] tags@[a].name@, #[trigger] tags@[b].name@),
                forall|a: int| 0 <= a < i ==> !nocase_eq(#[trigger] tags@[a].name@, tags@[j as int].name@),
            decreases j - i,
        {
            if crate::utils::text::nocase_equal(tags[i].name.as_str(), tags[j].name.as_str()) {
                return false;
            }
            i = i + 1;
        }
        j = j + 1;
    }
    true
}

/// Whether no pair occurs twice in the link table.
fn check_distinct(v: &Vec<(i64, i64)>) -> (res: bool)
    ensures
        res == v@.no_duplicates(),
{
    let mut j: usize = 0;
    while j < v.len()
        invariant
            0 <= j <= v.len(),
            forall|a: int, b: int| 0 <= a < b < j ==> v@[a] != v@[b],
        decreases v.len() - j,
    {
        let mut i: usize = 0;
        while i < j
            invariant
                0 <= i <= j < v.len(),
                forall|a: int, b: int| 0 <= a < b < j ==> v@[a] != v@[b],
                forall|a: int| 0 <= a < i ==> v@[a] != v@[j as int],
            decreases j - i,
        {
            let p = v[i];
            let q = v[j];
            if p.0 == q.0 && p.1 == q.1 {
                assert(v@[i as int] == v@[j as int]);
                return false;
            }
            i = i + 1;
        }
        j = j + 1;
    }
    true
}

impl Database {
    /// A database made of these tables, when they meet the invariant
    /// (ascending positive ids, unique paths, tag names unique up to ASCII
    /// case, links that name existing rows, no link twice); `None`
    /// otherwise.
    pub fn from_tables(
        files: Vec<File>,
        groups: Vec<Group>,
        tags: Vec<Tag>,
        group_files: Vec<(i64, i64)>,
        group_children: Vec<(i64, i64)>,
        group_tags: Vec<(i64, i64)>,
    ) -> (res: Option<Database>)
        ensures
            match res {
                Some(db) => db.wf() && db.files@ == files@ && db.groups@ == groups@ && db.tags@ == tags@
                    && db.group_files@ == group_files@ && db.group_children@ == group_children@
                    && db.group_tags@ == group_tags@,
                None => !(Database { files, groups, tags, group_files, group_children, group_tags }).wf(),
            },
    {
        let db = Database { files, groups, tags, group_files, group_children, group_tags };
        let file_ids = file_id_list(&db.files);
        let group_ids = group_id_list(&db.groups);
        let tag_ids = tag_id_list(&db.tags);
        assert(file_ids@ == db@.file_ids());
        assert(group_ids@ == db@.group_ids());
        assert(tag_ids@ == db@.tag_ids());
        if !check_ids(&file_ids) || !check_ids(&group_ids) || !check_ids(&tag_ids) {
            return None;
        }
        let paths_ok = check_paths_unique(&db.files);
        assert(paths_ok == forall|i: int, j: int|
            0 <= i < j < db@.files.len() ==> #[trigger] db@.files[i].path != #[trigger] db@.files[j].path) by {
            if !paths_ok {
                let (i, j) = choose|i: int, j: int|
                    0 <= i < j < db.files@.len() && #[trigger] db.files@[i].path@ == #[trigger] db.files@[j].path@;
                assert(db@.files[i].path == db@.files[j].path);
            } else {
                assert forall|i: int, j: int| 0 <= i < j < db@.files.len() implies #[trigger] db@.files[i].path
                    != #[trigger] db@.files[j].path by {
                    assert(db.files@[i].path@ != db.files@[j].path@);
                }
            }
        }
        if !paths_ok {
            return None;
        }
        let names_ok = check_tag_names_unique(&db.tags);
        assert(names_ok == forall|i: int, j: int|
            0 <= i < j < db@.tags.len() ==> !nocase_eq(#[trigger] db@.tags[i].name, #[trigger] db@.tags[j].name)) by {
            if !names_ok {
                let (i, j) = choose|i: int, j: int|
                    0 <= i < j < db.tags@.len() && nocase_eq(#[trigger] db.tags@[i].name@, #[trigger] db.tags@[j].name@);
                assert(nocase_eq(db@.tags[i].name, db@.tags[j].name));
            } else {
                assert forall|i: int, j: int| 0 <= i < j < db@.tags.len() implies !nocase_eq(
                    #[trigger] db@.tags[i].name,
                    #[trigger] db@.tags[j].name,
                ) by {
                    assert(!nocase_eq(db.tags@[i].name@, db.tags@[j].name@));
                }
            }
        }
        if !names_ok {
            return None;
        }
        if !check_links(&db.group_files, &group_ids, &file_ids) {
            proof {
                let (x, y) = choose|x: i64, y: i64|
                    #[trigger] db.group_files@.to_set().contains((x, y)) && !(group_ids@.contains(x) && file_ids@.contains(y));
                assert(db@.group_files.contains((x, y)));
            }
            return None;
        }
        if !check_links(&db.group_children, &group_ids, &group_ids) {
            proof {
                let (x, y) = choose|x: i64, y: i64|
                    #[trigger] db.group_children@.to_set().contains((x, y)) && !(group_ids@.contains(x) && group_ids@.contains(y));
                assert(db@.group_children.contains((x, y)));
            }
            return None;
        }
        if !check_distinct(&db.group_files) || !check_distinct(&db.group_children) || !check_distinct(
            &db.group_tags,
        ) {
            return None;
        }
        if !check_links(&db.group_tags, &group_ids, &tag_ids) {
            proof {
                let (x, y) = choose|x: i64, y: i64|
                    #[trigger] db.group_tags@.to_set().contains((x, y)) && !(group_ids@.contains(x) && tag_ids@.contains(y));
                assert(db@.group_tags.contains((x, y)));
            }
            return None;
        }
        Some(db)
    }
}

} // verus!
