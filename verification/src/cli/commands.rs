use vstd::prelude::*;
use crate::cli::{Output, OutputView, Report, RunOutcome, realizes, view_outputs, view_result};
use crate::cli::messages::{
    colored,
    line,
    make_colored,
    make_line,
    text1,
    text2,
    msg_refuse_reset,
    msg_reset_done,
    msg_file_not_found,
    msg_untracked,
    msg_group_not_found,
    msg_group_created,
    msg_group_not_created,
    msg_group_deleted,
    msg_file_added,
    msg_file_removed,
    msg_files_in_group,
    msg_has_file,
    msg_lacks_file,
    msg_self_child,
    msg_cycle,
    msg_child_added,
    msg_self_unchild,
    msg_not_a_child,
    msg_child_removed,
    msg_children_in_group,
    msg_has_child,
    msg_lacks_child,
    msg_tag_not_created,
    msg_tag_added,
    msg_tag_missing,
    msg_tag_removed,
    msg_tags_in_group,
    msg_has_tag,
    msg_lacks_tag,
    join,
    msg_file_tracked,
    msg_file_lost,
    msg_tracked,
    msg_tracked_and_added,
};
use crate::db::database::{lemma_eq_up_to_times, lemma_group_by_id_up_to_times, lemma_file_by_path_up_to_times};
use crate::services::file_service::{track_all, view_texts};
use crate::services::group_service::{add_all, lemma_add_all_up_to_times};
use crate::db::database::{DbError, lemma_tag_by_name, view_tags};
use crate::db::hierarchy::closes_cycle;
use crate::domain::tag::{Tag, TagView};
use crate::services::tag_service::{self, create_tag_one};
use crate::db::database::db_error_text;
use crate::services::group_service::{create_one, description_or_empty};
use crate::utils::text::cat;
use crate::config::{Colors, ColorsView};
use crate::db::database::{
    Database,
    DbView,
    eq_up_to_times,
    lemma_eq_up_to_times_refl,
    lemma_file_by_id,
    lemma_file_index,
    lemma_group_by_id,
    lemma_group_index,
    view_files,
    view_groups,
};
use crate::db::schema;
use crate::domain::file::{File, FileView};
use crate::domain::group::{Group, GroupView};
use crate::services::{file_service, group_service};
use crate::utils::text::int_text;
use crate::db::rows::{rows_stay, lemma_rows_stay_kept};
use crate::services::group_service::lemma_add_all_keeps_rows;

verus! {

fn no_output() -> (res: Vec<Output>)
    ensures
        view_outputs(res@) == Seq::<OutputView>::empty(),
{
    let res: Vec<Output> = Vec::new();
    assert(view_outputs(res@) =~= Seq::<OutputView>::empty());
    res
}

fn push_output(outs: &mut Vec<Output>, o: Output)
    ensures
        view_outputs(final(outs)@) == view_outputs(old(outs)@).push(o@),
{
    let ghost ov = o@;
    outs.push(o);
    assert(view_outputs(outs@) =~= view_outputs(old(outs)@).push(ov));
}

fn one_output(o: Output) -> (res: Vec<Output>)
    ensures
        view_outputs(res@) == seq![o@],
{
    let mut res = no_output();
    push_output(&mut res, o);
    assert(view_outputs(res@) =~= seq![o@]);
    res
}

fn failure(message: String) -> (rep: Report)
    ensures
        view_outputs(rep.outputs@) == Seq::<OutputView>::empty(),
        view_result(rep.result) == Err::<(), Seq<char>>(message@),
{
    Report { outputs: no_output(), result: Err(message) }
}

fn success(outputs: Vec<Output>) -> (rep: Report)
    ensures
        rep.outputs@ == outputs@,
        view_result(rep.result) == Ok::<(), Seq<char>>(()),
{
    Report { outputs, result: Ok(()) }
}

pub open spec fn fails(v: DbView, message: Seq<char>) -> RunOutcome {
    RunOutcome { db: v, out: Seq::empty(), result: Err(message) }
}

pub open spec fn prints(v: DbView, out: Seq<OutputView>) -> RunOutcome {
    RunOutcome { db: v, out, result: Ok(()) }
}

// ----- reset-db -----

#[verifier::opaque]
pub open spec fn reset_db_outcome(v: DbView, c: ColorsView, force: bool) -> RunOutcome {
    if !force {
        fails(v, colored(c.red, msg_refuse_reset(), c.reset))
    } else {
        prints(DbView::empty(), seq![OutputView::Text(line(c.yellow, msg_reset_done(), c.reset))])
    }
}

/// Empties the database; refused without `force`.
pub fn reset_db(db: &mut Database, col: &Colors, force: bool) -> (rep: Report)
    requires
        old(db).wf(),
    ensures
        final(db).wf(),
        realizes(old(db)@, final(db)@, rep, reset_db_outcome(old(db)@, col@, force)),
{
    proof {
        reveal(reset_db_outcome);
    }
    proof {
        lemma_eq_up_to_times_refl(old(db)@);
        lemma_eq_up_to_times_refl(DbView::empty());
    }
    if !force {
        return failure(make_colored(&col.red, "Refusing to reset database without --force flag", &col.reset));
    }
    schema::reset_schema(db);
    success(one_output(Output::Text(make_line(&col.yellow, "Reset entire db", &col.reset))))
}

// ----- untrack-file -----

#[verifier::opaque]
pub open spec fn untrack_file_outcome(v: DbView, c: ColorsView, file_id: i64) -> RunOutcome {
    match v.file_by_id(file_id) {
        None => fails(v, colored(c.yellow, msg_file_not_found(file_id), c.reset)),
        Some(f) => prints(
            v.without_file(v.file_index(file_id)),
            seq![OutputView::Text(line(c.green, msg_untracked(f.path), c.reset))],
        ),
    }
}

/// Stops tracking a file.
pub fn untrack_file(db: &mut Database, col: &Colors, file_id: i64) -> (rep: Report)
    requires
        old(db).wf(),
    ensures
        final(db).wf(),
        realizes(old(db)@, final(db)@, rep, untrack_file_outcome(old(db)@, col@, file_id)),
{
    proof {
        reveal(untrack_file_outcome);
    }
    match file_service::untrack_file(db, file_id) {
        Some(path) => {
            proof {
                let i = choose|i: int|
                    0 <= i < old(db)@.files.len() && #[trigger] old(db)@.files[i].id == file_id
                        && old(db)@.files[i].path == path@ && db@ == old(db)@.without_file(i);
                assert(old(db)@.files.contains(old(db)@.files[i]));
                lemma_file_by_id(old(db)@, old(db)@.files[i]);
                lemma_file_index(old(db)@, i);
                lemma_eq_up_to_times_refl(db@);
            }
            let msg = text1("File is no longer being tracked (", path.as_str(), ")");
            success(one_output(Output::Text(make_line(&col.green, msg.as_str(), &col.reset))))
        },
        None => {
            proof {
                lemma_eq_up_to_times_refl(db@);
            }
            let id = int_text(file_id as i128);
            let msg = text1("File with id ", id.as_str(), " not found");
            failure(make_colored(&col.yellow, msg.as_str(), &col.reset))
        },
    }
}

// ----- get-file -----

#[verifier::opaque]
pub open spec fn get_file_outcome(v: DbView, c: ColorsView, file_id: i64) -> RunOutcome {
    match v.file_by_id(file_id) {
        None => fails(v, colored(c.red, msg_file_not_found(file_id), c.reset)),
        Some(f) => prints(v, seq![OutputView::Files(seq![f])]),
    }
}

/// The file with this id or the error that it is not tracked; shared by
/// the commands that name a file.
fn lookup_file(db: &Database, col: &Colors, file_id: i64) -> (res: Result<File, String>)
    requires
        db.wf(),
    ensures
        match db@.file_by_id(file_id) {
            None => res matches Err(m) && m@ == colored(col@.red, msg_file_not_found(file_id), col@.reset),
            Some(f) => res matches Ok(g) && g@ == f,
        },
{
    match file_service::get_file(db, file_id) {
        Some(f) => {
            proof {
                lemma_file_by_id(db@, f@);
            }
            Ok(f)
        },
        None => {
            let id = int_text(file_id as i128);
            let msg = text1("File with id ", id.as_str(), " not found");
            Err(make_colored(&col.red, msg.as_str(), &col.reset))
        },
    }
}

/// The group with this id or the error that it does not exist; shared by
/// the commands that name a group.
fn lookup_group(db: &Database, col: &Colors, group_id: i64) -> (res: Result<Group, String>)
    requires
        db.wf(),
    ensures
        match db@.group_by_id(group_id) {
            None => res matches Err(m) && m@ == colored(col@.red, msg_group_not_found(group_id), col@.reset),
            Some(g) => res matches Ok(h) && h@ == g,
        },
{
    match group_service::get_group(db, group_id) {
        Some(g) => {
            proof {
                lemma_group_by_id(db@, g@);
            }
            Ok(g)
        },
        None => {
            let id = int_text(group_id as i128);
            let msg = text1("Group with id ", id.as_str(), " not found");
            Err(make_colored(&col.red, msg.as_str(), &col.reset))
        },
    }
}

/// Shows one file.
pub fn get_file(db: &Database, col: &Colors, file_id: i64) -> (rep: Report)
    requires
        db.wf(),
    ensures
        realizes(db@, db@, rep, get_file_outcome(db@, col@, file_id)),
{
    proof {
        reveal(get_file_outcome);
    }
    proof {
        lemma_eq_up_to_times_refl(db@);
    }
    match lookup_file(db, col, file_id) {
        Err(m) => failure(m),
        Ok(f) => {
            let mut files: Vec<File> = Vec::new();
            files.push(f);
            assert(view_files(files@) =~= seq![f@]);
            success(one_output(Output::Files(files)))
        },
    }
}

// ----- list-files -----

#[verifier::opaque]
pub open spec fn list_files_outcome(v: DbView) -> RunOutcome {
    if v.files.len() == 0 {
        prints(v, seq![OutputView::Text("No files\n"@)])
    } else {
        prints(v, seq![OutputView::Files(v.files)])
    }
}

/// Shows every tracked file.
pub fn list_files(db: &Database) -> (rep: Report)
    requires
        db.wf(),
    ensures
        realizes(db@, db@, rep, list_files_outcome(db@)),
{
    proof {
        reveal(list_files_outcome);
    }
    proof {
        lemma_eq_up_to_times_refl(db@);
    }
    let files = file_service::list_files(db);
    if files.len() == 0 {
        success(one_output(Output::Text(String::from_str("No files\n"))))
    } else {
        success(one_output(Output::Files(files)))
    }
}

// ----- create-group -----

pub open spec fn view_opt_string(s: Option<String>) -> Option<Seq<char>> {
    match s {
        Some(t) => Some(t@),
        None => None,
    }
}

#[verifier::opaque]
pub open spec fn create_group_outcome(
    v: DbView,
    c: ColorsView,
    name: Seq<char>,
    description: Option<Seq<char>>,
) -> RunOutcome {
    let (w, r) = create_one(v, name, description_or_empty(description));
    match r {
        Ok(Some(id)) => prints(w, seq![OutputView::Text(line(c.green, msg_group_created(name, id), c.reset))]),
        Ok(None) => fails(w, colored(c.red, msg_group_not_created(name), c.reset)),
        Err(e) => fails(w, db_error_text(e)),
    }
}

/// Creates a group.
pub fn create_group(db: &mut Database, col: &Colors, group_name: &String, description: &Option<String>) -> (rep: Report)
    requires
        old(db).wf(),
    ensures
        final(db).wf(),
        realizes(old(db)@, final(db)@, rep, create_group_outcome(old(db)@, col@, group_name@, view_opt_string(*description))),
{
    proof {
        reveal(create_group_outcome);
    }
    let d: Option<&str> = match description {
        Some(t) => Some(t.as_str()),
        None => None,
    };
    match group_service::create_group(db, group_name.as_str(), d) {
        Ok(Some(id)) => {
            let idt = int_text(id as i128);
            let msg = text2("Group '", group_name.as_str(), "'(id: ", idt.as_str(), ") created");
            success(one_output(Output::Text(make_line(&col.green, msg.as_str(), &col.reset))))
        },
        Ok(None) => {
            let msg = text1("Could not create group '", group_name.as_str(), "'");
            failure(make_colored(&col.red, msg.as_str(), &col.reset))
        },
        Err(e) => failure(e.message()),
    }
}

// ----- delete-group -----

#[verifier::opaque]
pub open spec fn delete_group_outcome(v: DbView, c: ColorsView, group_id: i64) -> RunOutcome {
    match v.group_by_id(group_id) {
        None => fails(v, colored(c.red, msg_group_not_found(group_id), c.reset)),
        Some(g) => prints(
            v.without_group(v.group_index(group_id)),
            seq![OutputView::Text(line(c.green, msg_group_deleted(g.name, group_id), c.reset))],
        ),
    }
}

/// Deletes a group with its links.
pub fn delete_group(db: &mut Database, col: &Colors, group_id: i64) -> (rep: Report)
    requires
        old(db).wf(),
    ensures
        final(db).wf(),
        realizes(old(db)@, final(db)@, rep, delete_group_outcome(old(db)@, col@, group_id)),
{
    proof {
        reveal(delete_group_outcome);
    }
    proof {
        lemma_eq_up_to_times_refl(old(db)@);
    }
    match lookup_group(db, col, group_id) {
        Err(m) => failure(m),
        Ok(g) => {
            group_service::delete_group(db, group_id);
            proof {
                let i = choose|i: int|
                    0 <= i < old(db)@.groups.len() && #[trigger] old(db)@.groups[i].id == group_id
                        && db@ == old(db)@.without_group(i);
                lemma_group_index(old(db)@, i);
                lemma_eq_up_to_times_refl(db@);
            }
            let idt = int_text(group_id as i128);
            let msg = text2("Group '", g.name.as_str(), "'(id: ", idt.as_str(), ") deleted");
            success(one_output(Output::Text(make_line(&col.green, msg.as_str(), &col.reset))))
        },
    }
}

// ----- get-group, list-groups -----

#[verifier::opaque]
pub open spec fn get_group_outcome(v: DbView, c: ColorsView, group_id: i64) -> RunOutcome {
    match v.group_by_id(group_id) {
        None => fails(v, colored(c.red, msg_group_not_found(group_id), c.reset)),
        Some(g) => prints(v, seq![OutputView::Groups(seq![g])]),
    }
}

/// Shows one group.
pub fn get_group(db: &Database, col: &Colors, group_id: i64) -> (rep: Report)
    requires
        db.wf(),
    ensures
        realizes(db@, db@, rep, get_group_outcome(db@, col@, group_id)),
{
    proof {
        reveal(get_group_outcome);
    }
    proof {
        lemma_eq_up_to_times_refl(db@);
    }
    match lookup_group(db, col, group_id) {
        Err(m) => failure(m),
        Ok(g) => {
            let mut groups: Vec<Group> = Vec::new();
            groups.push(g);
            assert(view_groups(groups@) =~= seq![g@]);
            success(one_output(Output::Groups(groups)))
        },
    }
}

#[verifier::opaque]
pub open spec fn list_groups_outcome(v: DbView) -> RunOutcome {
    if v.groups.len() == 0 {
        prints(v, seq![OutputView::Text("No groups\n"@)])
    } else {
        prints(v, seq![OutputView::Groups(v.groups)])
    }
}

/// Shows every group.
pub fn list_groups(db: &Database) -> (rep: Report)
    requires
        db.wf(),
    ensures
        realizes(db@, db@, rep, list_groups_outcome(db@)),
{
    proof {
        reveal(list_groups_outcome);
    }
    proof {
        lemma_eq_up_to_times_refl(db@);
    }
    let groups = group_service::fetch_groups(db);
    if groups.len() == 0 {
        success(one_output(Output::Text(String::from_str("No groups\n"))))
    } else {
        success(one_output(Output::Groups(groups)))
    }
}

// ----- group-add-file, group-remove-file, group-has-file -----

#[verifier::opaque]
pub open spec fn group_add_file_outcome(v: DbView, c: ColorsView, group_id: i64, file_id: i64) -> RunOutcome {
    match (v.group_by_id(group_id), v.file_by_id(file_id)) {
        (None, _) => fails(v, colored(c.red, msg_group_not_found(group_id), c.reset)),
        (Some(_), None) => fails(v, colored(c.red, msg_file_not_found(file_id), c.reset)),
        (Some(g), Some(f)) => prints(
            DbView { group_files: v.group_files.insert((group_id, file_id)), ..v },
            seq![OutputView::Text(line(c.green, msg_file_added(f.path, g.name), c.reset))],
        ),
    }
}

/// Links a file to a group.
pub fn group_add_file(db: &mut Database, col: &Colors, group_id: i64, file_id: i64) -> (rep: Report)
    requires
        old(db).wf(),
    ensures
        final(db).wf(),
        realizes(old(db)@, final(db)@, rep, group_add_file_outcome(old(db)@, col@, group_id, file_id)),
{
    proof {
        reveal(group_add_file_outcome);
    }
    proof {
        lemma_eq_up_to_times_refl(old(db)@);
    }
    let g = match lookup_group(db, col, group_id) {
        Err(m) => return failure(m),
        Ok(g) => g,
    };
    let f = match lookup_file(db, col, file_id) {
        Err(m) => return failure(m),
        Ok(f) => f,
    };
    match group_service::add_file(db, group_id, file_id) {
        Err(e) => return failure(e.message()),
        Ok(()) => {},
    }
    proof {
        lemma_eq_up_to_times_refl(db@);
    }
    let msg = text2("Added file (", f.path.as_str(), ") to group '", g.name.as_str(), "'");
    success(one_output(Output::Text(make_line(&col.green, msg.as_str(), &col.reset))))
}

#[verifier::opaque]
pub open spec fn group_remove_file_outcome(v: DbView, c: ColorsView, group_id: i64, file_id: i64) -> RunOutcome {
    match (v.group_by_id(group_id), v.file_by_id(file_id)) {
        (None, _) => fails(v, colored(c.red, msg_group_not_found(group_id), c.reset)),
        (Some(_), None) => fails(v, colored(c.red, msg_file_not_found(file_id), c.reset)),
        (Some(g), Some(f)) => prints(
            DbView { group_files: v.group_files.remove((group_id, file_id)), ..v },
            seq![OutputView::Text(line(c.green, msg_file_removed(f.path, g.name), c.reset))],
        ),
    }
}

/// Unlinks a file from a group.
pub fn group_remove_file(db: &mut Database, col: &Colors, group_id: i64, file_id: i64) -> (rep: Report)
    requires
        old(db).wf(),
    ensures
        final(db).wf(),
        realizes(old(db)@, final(db)@, rep, group_remove_file_outcome(old(db)@, col@, group_id, file_id)),
{
    proof {
        reveal(group_remove_file_outcome);
    }
    proof {
        lemma_eq_up_to_times_refl(old(db)@);
    }
    let g = match lookup_group(db, col, group_id) {
        Err(m) => return failure(m),
        Ok(g) => g,
    };
    let f = match lookup_file(db, col, file_id) {
        Err(m) => return failure(m),
        Ok(f) => f,
    };
    group_service::remove_file(db, group_id, file_id);
    proof {
        lemma_eq_up_to_times_refl(db@);
    }
    let msg = text2("Removed file (", f.path.as_str(), ") from group '", g.name.as_str(), "'");
    success(one_output(Output::Text(make_line(&col.green, msg.as_str(), &col.reset))))
}

#[verifier::opaque]
pub open spec fn group_has_file_outcome(v: DbView, c: ColorsView, group_id: i64, file_id: i64) -> RunOutcome {
    match (v.group_by_id(group_id), v.file_by_id(file_id)) {
        (None, _) => fails(v, colored(c.red, msg_group_not_found(group_id), c.reset)),
        (Some(_), None) => fails(v, colored(c.red, msg_file_not_found(file_id), c.reset)),
        (Some(g), Some(f)) => if v.group_files.contains((group_id, file_id)) {
            prints(v, seq![OutputView::Text(line(c.green, msg_has_file(g.name, f.path), c.reset))])
        } else {
            prints(v, seq![OutputView::Text(line(c.yellow, msg_lacks_file(g.name, f.path), c.reset))])
        },
    }
}

/// Tells whether a group has a file.
pub fn group_has_file(db: &Database, col: &Colors, group_id: i64, file_id: i64) -> (rep: Report)
    requires
        db.wf(),
    ensures
        realizes(db@, db@, rep, group_has_file_outcome(db@, col@, group_id, file_id)),
{
    proof {
        reveal(group_has_file_outcome);
    }
    proof {
        lemma_eq_up_to_times_refl(db@);
    }
    let g = match lookup_group(db, col, group_id) {
        Err(m) => return failure(m),
        Ok(g) => g,
    };
    let f = match lookup_file(db, col, file_id) {
        Err(m) => return failure(m),
        Ok(f) => f,
    };
    if group_service::has_file(db, group_id, file_id) {
        let msg = text2("Group '", g.name.as_str(), "' has file (", f.path.as_str(), ")");
        success(one_output(Output::Text(make_line(&col.green, msg.as_str(), &col.reset))))
    } else {
        let msg = text2("Group '", g.name.as_str(), "' does not have file (", f.path.as_str(), ")");
        success(one_output(Output::Text(make_line(&col.yellow, msg.as_str(), &col.reset))))
    }
}

// ----- group-list-files -----

#[verifier::opaque]
pub open spec fn group_list_files_outcome(v: DbView, c: ColorsView, group_id: i64) -> RunOutcome {
    match v.group_by_id(group_id) {
        None => fails(v, colored(c.red, msg_group_not_found(group_id), c.reset)),
        Some(g) => {
            let files = v.files_in_group(group_id);
            if files.len() == 0 {
                prints(v, seq![OutputView::Text("No files"@)])
            } else {
                prints(
                    v,
                    seq![
                        OutputView::Text(msg_files_in_group(files.len() as int, g.name) + "\n"@),
                        OutputView::Files(files),
                    ],
                )
            }
        },
    }
}

/// Shows the files of a group.
pub fn group_list_files(db: &Database, col: &Colors, group_id: i64) -> (rep: Report)
    requires
        db.wf(),
    ensures
        realizes(db@, db@, rep, group_list_files_outcome(db@, col@, group_id)),
{
    proof {
        reveal(group_list_files_outcome);
    }
    proof {
        lemma_eq_up_to_times_refl(db@);
    }
    let g = match lookup_group(db, col, group_id) {
        Err(m) => return failure(m),
        Ok(g) => g,
    };
    let files = group_service::fetch_files(db, group_id);
    assert(view_files(files@).len() == files@.len());
    if files.len() == 0 {
        success(one_output(Output::Text(String::from_str("No files"))))
    } else {
        let n = int_text(files.len() as i128);
        let msg = cat(cat(cat(cat(n, " files in group '"), g.name.as_str()), "':"), "\n");
        assert(msg@ == msg_files_in_group(db@.files_in_group(group_id).len() as int, g.name@) + "\n"@);
        let ghost fv = view_files(files@);
        let mut outs = one_output(Output::Text(msg));
        push_output(&mut outs, Output::Files(files));
        assert(view_outputs(outs@) =~= seq![OutputView::Text(msg@), OutputView::Files(fv)]);
        success(outs)
    }
}

// ----- group-add-child, group-remove-child, group-list-children, group-has-child -----

#[verifier::opaque]
pub open spec fn group_add_child_outcome(v: DbView, c: ColorsView, parent: i64, child: i64) -> RunOutcome {
    if parent == child {
        fails(v, colored(c.red, msg_self_child(), c.reset))
    } else {
        match (v.group_by_id(parent), v.group_by_id(child)) {
            (None, _) => fails(v, colored(c.red, msg_group_not_found(parent), c.reset)),
            (Some(_), None) => fails(v, colored(c.red, msg_group_not_found(child), c.reset)),
            (Some(p), Some(ch)) => if closes_cycle(v.group_children, parent, child) {
                fails(v, colored(c.red, msg_cycle(ch.name, p.name), c.reset))
            } else {
                prints(
                    DbView { group_children: v.group_children.insert((parent, child)), ..v },
                    seq![OutputView::Text(line(c.green, msg_child_added(ch.name, p.name), c.reset))],
                )
            },
        }
    }
}

/// Makes a group the child of another, refusing a link that would close a
/// cycle.
pub fn group_add_child(db: &mut Database, col: &Colors, parent_group_id: i64, child_group_id: i64) -> (rep: Report)
    requires
        old(db).wf(),
    ensures
        final(db).wf(),
        realizes(old(db)@, final(db)@, rep, group_add_child_outcome(old(db)@, col@, parent_group_id, child_group_id)),
{
    proof {
        reveal(group_add_child_outcome);
    }
    proof {
        lemma_eq_up_to_times_refl(old(db)@);
    }
    if parent_group_id == child_group_id {
        return failure(make_colored(&col.red, "Can not add group to itself", &col.reset));
    }
    let p = match lookup_group(db, col, parent_group_id) {
        Err(m) => return failure(m),
        Ok(g) => g,
    };
    let ch = match lookup_group(db, col, child_group_id) {
        Err(m) => return failure(m),
        Ok(g) => g,
    };
    if group_service::would_create_cycle(db, parent_group_id, child_group_id) {
        let msg = text2("Adding child '", ch.name.as_str(), "' to parent '", p.name.as_str(), "' would create a cycle");
        return failure(make_colored(&col.red, msg.as_str(), &col.reset));
    }
    match group_service::add_child(db, parent_group_id, child_group_id) {
        Err(e) => return failure(e.message()),
        Ok(()) => {},
    }
    proof {
        lemma_eq_up_to_times_refl(db@);
    }
    let msg = text2("Added child '", ch.name.as_str(), "' to parent '", p.name.as_str(), "'");
    success(one_output(Output::Text(make_line(&col.green, msg.as_str(), &col.reset))))
}

#[verifier::opaque]
pub open spec fn group_remove_child_outcome(v: DbView, c: ColorsView, parent: i64, child: i64) -> RunOutcome {
    if parent == child {
        fails(v, colored(c.red, msg_self_unchild(), c.reset))
    } else {
        match (v.group_by_id(parent), v.group_by_id(child)) {
            (None, _) => fails(v, colored(c.red, msg_group_not_found(parent), c.reset)),
            (Some(_), None) => fails(v, colored(c.red, msg_group_not_found(child), c.reset)),
            (Some(p), Some(ch)) => if !v.group_children.contains((parent, child)) {
                prints(v, seq![OutputView::Text(line(c.yellow, msg_not_a_child(ch.name, p.name), c.reset))])
            } else {
                prints(
                    DbView { group_children: v.group_children.remove((parent, child)), ..v },
                    seq![OutputView::Text(line(c.green, msg_child_removed(ch.name, p.name), c.reset))],
                )
            },
        }
    }
}

/// Removes the link between a parent and a child group.
pub fn group_remove_child(db: &mut Database, col: &Colors, parent_group_id: i64, child_group_id: i64) -> (rep: Report)
    requires
        old(db).wf(),
    ensures
        final(db).wf(),
        realizes(old(db)@, final(db)@, rep, group_remove_child_outcome(old(db)@, col@, parent_group_id, child_group_id)),
{
    proof {
        reveal(group_remove_child_outcome);
    }
    proof {
        lemma_eq_up_to_times_refl(old(db)@);
    }
    if parent_group_id == child_group_id {
        return failure(make_colored(&col.red, "Can not remove group from itself", &col.reset));
    }
    let p = match lookup_group(db, col, parent_group_id) {
        Err(m) => return failure(m),
        Ok(g) => g,
    };
    let ch = match lookup_group(db, col, child_group_id) {
        Err(m) => return failure(m),
        Ok(g) => g,
    };
    if !group_service::has_child(db, parent_group_id, child_group_id) {
        let msg = text2("Group '", ch.name.as_str(), "' is not a child of group '", p.name.as_str(), "'");
        return success(one_output(Output::Text(make_line(&col.yellow, msg.as_str(), &col.reset))));
    }
    group_service::remove_child(db, parent_group_id, child_group_id);
    proof {
        lemma_eq_up_to_times_refl(db@);
    }
    let msg = text2("Removed child '", ch.name.as_str(), "' from parent '", p.name.as_str(), "'");
    success(one_output(Output::Text(make_line(&col.green, msg.as_str(), &col.reset))))
}

#[verifier::opaque]
pub open spec fn group_list_children_outcome(v: DbView, c: ColorsView, parent: i64) -> RunOutcome {
    match v.group_by_id(parent) {
        None => fails(v, colored(c.red, msg_group_not_found(parent), c.reset)),
        Some(p) => {
            let kids = v.children_of(parent);
            if kids.len() == 0 {
                prints(v, seq![OutputView::Text("No children\n"@)])
            } else {
                prints(
                    v,
                    seq![
                        OutputView::Text(msg_children_in_group(kids.len() as int, p.name) + "\n"@),
                        OutputView::Groups(kids),
                    ],
                )
            }
        },
    }
}

/// Shows the children of a group.
pub fn group_list_children(db: &Database, col: &Colors, parent_group_id: i64) -> (rep: Report)
    requires
        db.wf(),
    ensures
        realizes(db@, db@, rep, group_list_children_outcome(db@, col@, parent_group_id)),
{
    proof {
        reveal(group_list_children_outcome);
    }
    proof {
        lemma_eq_up_to_times_refl(db@);
    }
    let p = match lookup_group(db, col, parent_group_id) {
        Err(m) => return failure(m),
        Ok(g) => g,
    };
    let kids = group_service::fetch_children(db, parent_group_id);
    assert(view_groups(kids@).len() == kids@.len());
    if kids.len() == 0 {
        success(one_output(Output::Text(String::from_str("No children\n"))))
    } else {
        let n = int_text(kids.len() as i128);
        let msg = cat(cat(cat(cat(n, " children in group '"), p.name.as_str()), "':"), "\n");
        assert(msg@ == msg_children_in_group(db@.children_of(parent_group_id).len() as int, p.name@) + "\n"@);
        let ghost kv = view_groups(kids@);
        let mut outs = one_output(Output::Text(msg));
        push_output(&mut outs, Output::Groups(kids));
        assert(view_outputs(outs@) =~= seq![OutputView::Text(msg@), OutputView::Groups(kv)]);
        success(outs)
    }
}

#[verifier::opaque]
pub open spec fn group_has_child_outcome(v: DbView, c: ColorsView, parent: i64, child: i64) -> RunOutcome {
    match (v.group_by_id(parent), v.group_by_id(child)) {
        (None, _) => fails(v, colored(c.red, msg_group_not_found(parent), c.reset)),
        (Some(_), None) => fails(v, colored(c.red, msg_group_not_found(child), c.reset)),
        (Some(p), Some(ch)) => if v.group_children.contains((parent, child)) {
            prints(v, seq![OutputView::Text(line(c.green, msg_has_child(p.name, ch.name), c.reset))])
        } else {
            prints(v, seq![OutputView::Text(line(c.yellow, msg_lacks_child(p.name, ch.name), c.reset))])
        },
    }
}

/// Tells whether a group is a direct child of another.
pub fn group_has_child(db: &Database, col: &Colors, parent_group_id: i64, child_group_id: i64) -> (rep: Report)
    requires
        db.wf(),
    ensures
        realizes(db@, db@, rep, group_has_child_outcome(db@, col@, parent_group_id, child_group_id)),
{
    proof {
        reveal(group_has_child_outcome);
    }
    proof {
        lemma_eq_up_to_times_refl(db@);
    }
    let p = match lookup_group(db, col, parent_group_id) {
        Err(m) => return failure(m),
        Ok(g) => g,
    };
    let ch = match lookup_group(db, col, child_group_id) {
        Err(m) => return failure(m),
        Ok(g) => g,
    };
    if group_service::has_child(db, parent_group_id, child_group_id) {
        let msg = text2("Group '", p.name.as_str(), "' has child '", ch.name.as_str(), "'");
        success(one_output(Output::Text(make_line(&col.green, msg.as_str(), &col.reset))))
    } else {
        let msg = text2("Group '", p.name.as_str(), "' does not have child '", ch.name.as_str(), "'");
        success(one_output(Output::Text(make_line(&col.yellow, msg.as_str(), &col.reset))))
    }
}

// ----- tags -----

/// The id of the tag named `name`, creating the tag when none has that
/// name (up to ASCII case): the database after and the id, or the error
/// message.
pub open spec fn tag_for(v: DbView, c: ColorsView, name: Seq<char>) -> (DbView, Result<i64, Seq<char>>) {
    match v.tag_by_name(name) {
        Some(t) => (v, Ok(t.id)),
        None => {
            let (w, r) = create_tag_one(v, name);
            match r {
                Ok(Some(id)) => (w, Ok(id)),
                Ok(None) => (w, Err(colored(c.red, msg_tag_not_created(name), c.reset))),
                Err(e) => (w, Err(db_error_text(e))),
            }
        },
    }
}

fn resolve_tag(db: &mut Database, col: &Colors, tag: &String) -> (res: Result<i64, String>)
    requires
        old(db).wf(),
    ensures
        final(db).wf(),
        final(db)@ == tag_for(old(db)@, col@, tag@).0,
        match tag_for(old(db)@, col@, tag@).1 {
            Ok(id) => res == Ok::<i64, String>(id),
            Err(m) => res matches Err(e) && e@ == m,
        },
{
    match tag_service::find_tag_by_name(db, tag.as_str()) {
        Some(t) => {
            proof {
                lemma_tag_by_name(db@, t@, tag@);
            }
            Ok(t.id)
        },
        None => match tag_service::create_tag(db, tag.as_str()) {
            Ok(Some(id)) => Ok(id),
            Ok(None) => {
                let msg = text1("Could not create Tag '", tag.as_str(), "'");
                Err(make_colored(&col.red, msg.as_str(), &col.reset))
            },
            Err(e) => Err(e.message()),
        },
    }
}

#[verifier::opaque]
pub open spec fn group_add_tag_outcome(v: DbView, c: ColorsView, group_id: i64, tag: Seq<char>) -> RunOutcome {
    match v.group_by_id(group_id) {
        None => fails(v, colored(c.red, msg_group_not_found(group_id), c.reset)),
        Some(g) => {
            let (w, r) = tag_for(v, c, tag);
            match r {
                Err(m) => fails(w, m),
                Ok(tid) => if w.has_group(group_id) && w.has_tag(tid) {
                    prints(
                        DbView { group_tags: w.group_tags.insert((group_id, tid)), ..w },
                        seq![OutputView::Text(line(c.green, msg_tag_added(tag, g.name), c.reset))],
                    )
                } else {
                    fails(w, db_error_text(DbError::ForeignKeyViolation))
                },
            }
        },
    }
}

/// Gives a group a tag, creating the tag when it does not exist.
pub fn group_add_tag(db: &mut Database, col: &Colors, group_id: i64, tag: &String) -> (rep: Report)
    requires
        old(db).wf(),
    ensures
        final(db).wf(),
        realizes(old(db)@, final(db)@, rep, group_add_tag_outcome(old(db)@, col@, group_id, tag@)),
{
    proof {
        reveal(group_add_tag_outcome);
    }
    proof {
        lemma_eq_up_to_times_refl(old(db)@);
    }
    let g = match lookup_group(db, col, group_id) {
        Err(m) => return failure(m),
        Ok(g) => g,
    };
    let tid = match resolve_tag(db, col, tag) {
        Err(m) => {
            proof {
                lemma_eq_up_to_times_refl(db@);
            }
            return failure(m);
        },
        Ok(id) => id,
    };
    match group_service::add_tag(db, group_id, tid) {
        Err(e) => {
            proof {
                lemma_eq_up_to_times_refl(db@);
            }
            return failure(e.message());
        },
        Ok(()) => {},
    }
    proof {
        lemma_eq_up_to_times_refl(db@);
    }
    let msg = text2("Added tag '", tag.as_str(), "' to group '", g.name.as_str(), "'");
    success(one_output(Output::Text(make_line(&col.green, msg.as_str(), &col.reset))))
}

#[verifier::opaque]
pub open spec fn group_remove_tag_outcome(v: DbView, c: ColorsView, group_id: i64, tag: Seq<char>) -> RunOutcome {
    match v.group_by_id(group_id) {
        None => fails(v, colored(c.red, msg_group_not_found(group_id), c.reset)),
        Some(g) => match v.tag_by_name(tag) {
            None => fails(v, colored(c.red, msg_tag_missing(tag), c.reset)),
            Some(t) => prints(
                DbView { group_tags: v.group_tags.remove((group_id, t.id)), ..v },
                seq![OutputView::Text(line(c.green, msg_tag_removed(tag, g.name), c.reset))],
            ),
        },
    }
}

/// Takes a tag from a group.
pub fn group_remove_tag(db: &mut Database, col: &Colors, group_id: i64, tag: &String) -> (rep: Report)
    requires
        old(db).wf(),
    ensures
        final(db).wf(),
        realizes(old(db)@, final(db)@, rep, group_remove_tag_outcome(old(db)@, col@, group_id, tag@)),
{
    proof {
        reveal(group_remove_tag_outcome);
    }
    proof {
        lemma_eq_up_to_times_refl(old(db)@);
    }
    let g = match lookup_group(db, col, group_id) {
        Err(m) => return failure(m),
        Ok(g) => g,
    };
    let t = match tag_service::find_tag_by_name(db, tag.as_str()) {
        None => {
            let msg = text1("Tag '", tag.as_str(), "' does not exist");
            return failure(make_colored(&col.red, msg.as_str(), &col.reset));
        },
        Some(t) => t,
    };
    proof {
        lemma_tag_by_name(db@, t@, tag@);
    }
    group_service::remove_tag(db, group_id, t.id);
    proof {
        lemma_eq_up_to_times_refl(db@);
    }
    let msg = text2("Removed tag '", tag.as_str(), "' from group '", g.name.as_str(), "'");
    success(one_output(Output::Text(make_line(&col.green, msg.as_str(), &col.reset))))
}

pub open spec fn tag_names(tags: Seq<TagView>) -> Seq<Seq<char>> {
    tags.map_values(|t: TagView| t.name)
}

/// The names of the tags joined with ", ".
fn join_tag_names(tags: &Vec<Tag>) -> (res: String)
    ensures
        res@ == join(tag_names(view_tags(tags@)), ", "@),
{
    let ghost names = tag_names(view_tags(tags@));
    let mut res = String::new();
    let mut i: usize = 0;
    while i < tags.len()
        invariant
            0 <= i <= tags.len(),
            names == tag_names(view_tags(tags@)),
            res@ == join(names.take(i as int), ", "@),
        decreases tags.len() - i,
    {
        proof {
            assert(names.take(i + 1).drop_last() =~= names.take(i as int));
            assert(names.take(i + 1).last() == tags@[i as int].name@);
        }
        if i > 0 {
            res.append(", ");
        } else {
            assert(names.take(1) =~= seq![names[0]]);
            assert(res@ =~= Seq::<char>::empty());
        }
        res.append(tags[i].name.as_str());
        proof {
            if i == 0 {
                assert(res@ =~= names.take(1)[0]);
            }
        }
        i = i + 1;
    }
    assert(names.take(i as int) =~= names);
    res
}

#[verifier::opaque]
pub open spec fn group_list_tags_outcome(v: DbView, c: ColorsView, group_id: i64) -> RunOutcome {
    match v.group_by_id(group_id) {
        None => fails(v, colored(c.red, msg_group_not_found(group_id), c.reset)),
        Some(g) => {
            let tags = v.tags_of_group(group_id);
            if tags.len() == 0 {
                prints(v, seq![OutputView::Text("No tags\n"@)])
            } else {
                prints(
                    v,
                    seq![
                        OutputView::Text(msg_tags_in_group(tags.len() as int, g.name) + "\n"@),
                        OutputView::Text(join(tag_names(tags), ", "@) + "\n"@),
                    ],
                )
            }
        },
    }
}

/// Shows the tags of a group.
pub fn group_list_tags(db: &Database, col: &Colors, group_id: i64) -> (rep: Report)
    requires
        db.wf(),
    ensures
        realizes(db@, db@, rep, group_list_tags_outcome(db@, col@, group_id)),
{
    proof {
        reveal(group_list_tags_outcome);
    }
    proof {
        lemma_eq_up_to_times_refl(db@);
    }
    let g = match lookup_group(db, col, group_id) {
        Err(m) => return failure(m),
        Ok(g) => g,
    };
    let tags = group_service::fetch_tags(db, group_id);
    assert(view_tags(tags@).len() == tags@.len());
    if tags.len() == 0 {
        success(one_output(Output::Text(String::from_str("No tags\n"))))
    } else {
        let n = int_text(tags.len() as i128);
        let msg = cat(cat(cat(cat(n, " tags in group '"), g.name.as_str()), "':"), "\n");
        assert(msg@ == msg_tags_in_group(db@.tags_of_group(group_id).len() as int, g.name@) + "\n"@);
        let names = cat(join_tag_names(&tags), "\n");
        let mut outs = one_output(Output::Text(msg));
        push_output(&mut outs, Output::Text(names));
        assert(view_outputs(outs@) =~= seq![OutputView::Text(msg@), OutputView::Text(names@)]);
        success(outs)
    }
}

#[verifier::opaque]
pub open spec fn group_has_tag_outcome(v: DbView, c: ColorsView, group_id: i64, tag: Seq<char>) -> RunOutcome {
    match v.group_by_id(group_id) {
        None => fails(v, colored(c.red, msg_group_not_found(group_id), c.reset)),
        Some(g) => {
            let (w, r) = tag_for(v, c, tag);
            match r {
                Err(m) => fails(w, m),
                Ok(tid) => if w.group_tags.contains((group_id, tid)) {
                    prints(w, seq![OutputView::Text(line(c.green, msg_has_tag(g.name, tag), c.reset))])
                } else {
                    prints(w, seq![OutputView::Text(line(c.yellow, msg_lacks_tag(g.name, tag), c.reset))])
                },
            }
        },
    }
}

/// Tells whether a group has a tag; a tag that does not exist is created.
pub fn group_has_tag(db: &mut Database, col: &Colors, group_id: i64, tag: &String) -> (rep: Report)
    requires
        old(db).wf(),
    ensures
        final(db).wf(),
        realizes(old(db)@, final(db)@, rep, group_has_tag_outcome(old(db)@, col@, group_id, tag@)),
{
    proof {
        reveal(group_has_tag_outcome);
    }
    proof {
        lemma_eq_up_to_times_refl(old(db)@);
    }
    let g = match lookup_group(db, col, group_id) {
        Err(m) => return failure(m),
        Ok(g) => g,
    };
    let tid = match resolve_tag(db, col, tag) {
        Err(m) => {
            proof {
                lemma_eq_up_to_times_refl(db@);
            }
            return failure(m);
        },
        Ok(id) => id,
    };
    proof {
        lemma_eq_up_to_times_refl(db@);
    }
    if group_service::has_tag(db, group_id, tid) {
        let msg = text2("Group '", g.name.as_str(), "' has tag '", tag.as_str(), "'");
        success(one_output(Output::Text(make_line(&col.green, msg.as_str(), &col.reset))))
    } else {
        let msg = text2("Group '", g.name.as_str(), "' does not have tag '", tag.as_str(), "'");
        success(one_output(Output::Text(make_line(&col.yellow, msg.as_str(), &col.reset))))
    }
}

// ----- track-files -----

/// The ids of the files tracked under the paths, in order; `None` when a
/// path is not tracked.
pub open spec fn ids_of_paths(v: DbView, paths: Seq<Seq<char>>) -> Option<Seq<i64>>
    decreases paths.len(),
{
    if paths.len() == 0 {
        Some(Seq::empty())
    } else {
        match ids_of_paths(v, paths.drop_last()) {
            None => None,
            Some(ids) => match v.file_by_path(paths.last()) {
                None => None,
                Some(f) => Some(ids.push(f.id)),
            },
        }
    }
}

/// The lines that report each path as added to a group.
pub open spec fn added_lines(c: ColorsView, paths: Seq<Seq<char>>, group: Seq<char>) -> Seq<OutputView> {
    paths.map_values(|p: Seq<char>| OutputView::Text(line(c.green, msg_file_added(p, group), c.reset)))
}

/// The lines that report the ids of newly tracked files.
pub open spec fn tracked_lines(c: ColorsView, ids: Seq<i64>) -> Seq<OutputView> {
    ids.map_values(|id: i64| OutputView::Text(line(c.green, msg_file_tracked(id), c.reset)))
}

/// Adding the files to the groups one group after the other: the database
/// after, what is printed, and the first error.
pub open spec fn add_to_groups(
    v: DbView,
    c: ColorsView,
    groups: Seq<i64>,
    file_ids: Seq<i64>,
    paths: Seq<Seq<char>>,
) -> (DbView, Seq<OutputView>, Result<(), Seq<char>>)
    decreases groups.len(),
{
    if groups.len() == 0 {
        (v, Seq::empty(), Ok(()))
    } else {
        let (w, out, r) = add_to_groups(v, c, groups.drop_last(), file_ids, paths);
        match r {
            Err(m) => (w, out, Err(m)),
            Ok(()) => {
                let g = groups.last();
                match w.group_by_id(g) {
                    None => (w, out, Err(colored(c.red, msg_group_not_found(g), c.reset))),
                    Some(grp) => {
                        let (w2, r2) = add_all(w, g, file_ids);
                        match r2 {
                            Err(e) => (w2, out, Err(db_error_text(e))),
                            Ok(()) => (w2, out + added_lines(c, paths, grp.name), Ok(())),
                        }
                    },
                }
            },
        }
    }
}

pub open spec fn view_opt_ids(groups: Option<Vec<i64>>) -> Option<Seq<i64>> {
    match groups {
        Some(g) => Some(g@),
        None => None,
    }
}

#[verifier::opaque]
pub open spec fn track_files_outcome(
    v: DbView,
    c: ColorsView,
    collected: Seq<Seq<char>>,
    groups: Option<Seq<i64>>,
) -> RunOutcome {
    let (w, r) = track_all(v, collected);
    match r {
        Err(e) => fails(v, db_error_text(e)),
        Ok(ids) => {
            let first_lines = tracked_lines(c, ids);
            match groups {
                None => prints(w, first_lines.push(OutputView::Text(line(c.green, msg_tracked(ids.len() as int), c.reset)))),
                Some(gl) => {
                    let lookup = if ids.len() != collected.len() {
                        ids_of_paths(w, collected)
                    } else {
                        Some(ids)
                    };
                    match lookup {
                        None => RunOutcome { db: w, out: first_lines, result: Err(colored(c.red, msg_file_lost(), c.reset)) },
                        Some(fids) => {
                            let (w2, out2, r2) = add_to_groups(w, c, gl, fids, collected);
                            match r2 {
                                Err(m) => RunOutcome { db: w2, out: first_lines + out2, result: Err(m) },
                                Ok(()) => prints(
                                    w2,
                                    first_lines + out2 + seq![
                                        OutputView::Text(
                                            line(c.green, msg_tracked_and_added(fids.len() as int, gl.len() as int), c.reset),
                                        ),
                                    ],
                                ),
                            }
                        },
                    }
                },
            }
        },
    }
}

/// The ids of the files tracked under the paths, or the error message for
/// the first path that is not tracked.
fn lookup_paths(db: &Database, col: &Colors, paths: &Vec<String>, Ghost(w): Ghost<DbView>) -> (res: Result<Vec<i64>, String>)
    requires
        db.wf(),
        eq_up_to_times(db@, w),
    ensures
        match ids_of_paths(w, view_texts(paths@)) {
            Some(ids) => res matches Ok(r) && r@ == ids,
            None => res matches Err(m) && m@ == colored(col@.red, msg_file_lost(), col@.reset),
        },
{
    let ghost all = view_texts(paths@);
    let mut ids: Vec<i64> = Vec::new();
    let mut i: usize = 0;
    while i < paths.len()
        invariant
            0 <= i <= paths.len(),
            db.wf(),
            eq_up_to_times(db@, w),
            all == view_texts(paths@),
            ids_of_paths(w, all.take(i as int)) == Some(ids@),
        decreases paths.len() - i,
    {
        proof {
            assert(all.take(i + 1).drop_last() =~= all.take(i as int));
            assert(all.take(i + 1).last() == paths@[i as int]@);
            lemma_file_by_path_up_to_times(db@, w, paths@[i as int]@);
        }
        match file_service::find_file_by_path(db, paths[i].as_str()) {
            None => {
                proof {
                    lemma_ids_of_paths_none_sticky(w, all, i + 1);
                }
                return Err(make_colored(&col.red, "File could not be found", &col.reset));
            },
            Some(f) => {
                proof {
                    crate::db::database::lemma_file_by_path(db@, f@);
                }
                ids.push(f.id);
            },
        }
        i = i + 1;
    }
    assert(all.take(i as int) =~= all);
    Ok(ids)
}

proof fn lemma_ids_of_paths_none_sticky(v: DbView, paths: Seq<Seq<char>>, k: int)
    requires
        0 <= k <= paths.len(),
        ids_of_paths(v, paths.take(k)) is None,
    ensures
        ids_of_paths(v, paths) is None,
    decreases paths.len() - k,
{
    if k < paths.len() {
        assert(paths.take(k + 1).drop_last() =~= paths.take(k));
        lemma_ids_of_paths_none_sticky(v, paths, k + 1);
    } else {
        assert(paths.take(k) =~= paths);
    }
}

proof fn lemma_add_to_groups_err_sticky(
    v: DbView,
    c: ColorsView,
    groups: Seq<i64>,
    file_ids: Seq<i64>,
    paths: Seq<Seq<char>>,
    k: int,
)
    requires
        0 <= k <= groups.len(),
        add_to_groups(v, c, groups.take(k), file_ids, paths).2 is Err,
    ensures
        add_to_groups(v, c, groups, file_ids, paths) == add_to_groups(v, c, groups.take(k), file_ids, paths),
    decreases groups.len() - k,
{
    if k < groups.len() {
        assert(groups.take(k + 1).drop_last() =~= groups.take(k));
        lemma_add_to_groups_err_sticky(v, c, groups, file_ids, paths, k + 1);
    } else {
        assert(groups.take(k) =~= groups);
    }
}

/// Pushes, for each path, the line that reports it added to a group.
fn push_added_lines(outs: &mut Vec<Output>, col: &Colors, paths: &Vec<String>, group: &String)
    ensures
        view_outputs(final(outs)@) == view_outputs(old(outs)@) + added_lines(col@, view_texts(paths@), group@),
{
    let ghost all = view_texts(paths@);
    let mut i: usize = 0;
    while i < paths.len()
        invariant
            0 <= i <= paths.len(),
            all == view_texts(paths@),
            view_outputs(outs@) == view_outputs(old(outs)@) + added_lines(col@, all.take(i as int), group@),
        decreases paths.len() - i,
    {
        let msg = text2("Added file (", paths[i].as_str(), ") to group '", group.as_str(), "'");
        let ghost before = view_outputs(outs@);
        push_output(outs, Output::Text(make_line(&col.green, msg.as_str(), &col.reset)));
        assert(added_lines(col@, all.take(i + 1), group@) =~= added_lines(col@, all.take(i as int), group@).push(
            OutputView::Text(line(col@.green, msg_file_added(paths@[i as int]@, group@), col@.reset)),
        ));
        i = i + 1;
    }
    assert(all.take(i as int) =~= all);
}

/// Tracks the collected files and, when groups are given, adds them to
/// each group.
pub fn track_files(db: &mut Database, col: &Colors, collected: &Vec<String>, groups: &Option<Vec<i64>>) -> (rep: Report)
    requires
        old(db).wf(),
    ensures
        final(db).wf(),
        realizes(old(db)@, final(db)@, rep, track_files_outcome(old(db)@, col@, view_texts(collected@), view_opt_ids(*groups))),
{
    proof {
        reveal(track_files_outcome);
    }
    let ghost all = view_texts(collected@);
    let file_ids = match file_service::track_files(db, collected.as_slice()) {
        Err(e) => {
            proof {
                lemma_eq_up_to_times_refl(db@);
            }
            return failure(e.message());
        },
        Ok(ids) => ids,
    };
    proof {
        lemma_rows_stay_kept(old(db)@, db@);
    }
    let ghost w = track_all(old(db)@, all).0;
    let mut outs = no_output();
    let mut k: usize = 0;
    while k < file_ids.len()
        invariant
            0 <= k <= file_ids.len(),
            view_outputs(outs@) == tracked_lines(col@, file_ids@.take(k as int)),
        decreases file_ids.len() - k,
    {
        let idt = int_text(file_ids[k] as i128);
        let msg = cat(String::from_str("File is now tracked with id "), idt.as_str());
        push_output(&mut outs, Output::Text(make_line(&col.green, msg.as_str(), &col.reset)));
        assert(tracked_lines(col@, file_ids@.take(k + 1)) =~= tracked_lines(col@, file_ids@.take(k as int)).push(
            OutputView::Text(line(col@.green, msg_file_tracked(file_ids@[k as int]), col@.reset)),
        ));
        k = k + 1;
    }
    assert(file_ids@.take(k as int) =~= file_ids@);
    let ghost first_lines = view_outputs(outs@);
    let ghost ids0 = file_ids@;
    match groups {
        None => {
            let n = int_text(file_ids.len() as i128);
            let msg = text1("Tracked ", n.as_str(), " files");
            push_output(&mut outs, Output::Text(make_line(&col.green, msg.as_str(), &col.reset)));
            assert(msg@ == msg_tracked(ids0.len() as int));
            assert(eq_up_to_times(db@, w));
            assert(view_outputs(outs@) == first_lines.push(OutputView::Text(line(col@.green, msg_tracked(ids0.len() as int), col@.reset))));
            assert(view_opt_ids(*groups) == None::<Seq<i64>>);
            assert(track_files_outcome(old(db)@, col@, all, view_opt_ids(*groups)) == prints(w, first_lines.push(OutputView::Text(line(col@.green, msg_tracked(ids0.len() as int), col@.reset)))));
            success(outs)
        },
        Some(gl) => {
            let fids = if file_ids.len() != collected.len() {
                match lookup_paths(db, col, collected, Ghost(w)) {
                    Err(m) => return Report { outputs: outs, result: Err(m) },
                    Ok(ids) => ids,
                }
            } else {
                file_ids
            };
            let ghost fv = fids@;
            assert(track_all(old(db)@, all).1 == Ok::<Seq<i64>, crate::db::database::DbError>(file_ids@));
            assert(view_opt_ids(*groups) == Some(gl@));
            assert((if ids0.len() != all.len() { ids_of_paths(w, all) } else { Some(ids0) }) == Some(fv));
            assert(collected@.len() == all.len());
            let mut j: usize = 0;
            while j < gl.len()
                invariant
                    0 <= j <= gl.len(),
                    db.wf(),
                    fids@ == fv,
                    all == view_texts(collected@),
                    w == track_all(old(db)@, all).0,
                    track_all(old(db)@, all).1 == Ok::<Seq<i64>, crate::db::database::DbError>(ids0),
                    first_lines == tracked_lines(col@, ids0),
                    view_opt_ids(*groups) == Some(gl@),
                    (if ids0.len() != all.len() { ids_of_paths(w, all) } else { Some(ids0) }) == Some(fv),
                    rows_stay(old(db)@, db@),
                    ({
                        let (w2, out2, r2) = add_to_groups(w, col@, gl@.take(j as int), fv, all);
                        &&& r2 == Ok::<(), Seq<char>>(())
                        &&& eq_up_to_times(db@, w2)
                        &&& view_outputs(outs@) == first_lines + out2
                    }),
                decreases gl.len() - j,
            {
                let ghost prev = add_to_groups(w, col@, gl@.take(j as int), fv, all);
                proof {
                    assert(gl@.take(j + 1).drop_last() =~= gl@.take(j as int));
                    assert(gl@.take(j + 1).last() == gl@[j as int]);
                    lemma_eq_up_to_times(db@, prev.0);
                    lemma_group_by_id_up_to_times(db@, prev.0, gl@[j as int]);
                    lemma_eq_up_to_times(prev.0, db@);
                }
                let group_id = gl[j];
                let g = match lookup_group(db, col, group_id) {
                    Err(m) => {
                        proof {
                            lemma_rows_stay_kept(old(db)@, db@);
                            reveal(track_files_outcome);
                            lemma_add_to_groups_err_sticky(w, col@, gl@, fv, all, j + 1);
                        }
                        return Report { outputs: outs, result: Err(m) };
                    },
                    Ok(g) => g,
                };
                let ghost before = db@;
                let r = group_service::add_files(db, group_id, fids.as_slice());
                proof {
                    lemma_add_all_up_to_times(before, prev.0, group_id, fv);
                    lemma_add_all_keeps_rows(before, group_id, fv);
                    lemma_rows_stay_kept(old(db)@, db@);
                }
                match r {
                    Err(e) => {
                        proof {
                            reveal(track_files_outcome);
                            lemma_add_to_groups_err_sticky(w, col@, gl@, fv, all, j + 1);
                        }
                        return Report { outputs: outs, result: Err(e.message()) };
                    },
                    Ok(()) => {},
                }
                push_added_lines(&mut outs, col, collected, &g.name);
                proof {
                    assert(first_lines + prev.1 + added_lines(col@, all, g.name@) =~= first_lines + (prev.1 + added_lines(col@, all, g.name@)));
                }
                j = j + 1;
            }
            proof {
                lemma_rows_stay_kept(old(db)@, db@);
                assert(gl@.take(j as int) =~= gl@);
                assert(fv.len() == fids@.len());
            }
            let nf = int_text(fids.len() as i128);
            let ng = int_text(gl.len() as i128);
            let msg = text2("Tracked and added ", nf.as_str(), " files to ", ng.as_str(), " different groups");
            push_output(&mut outs, Output::Text(make_line(&col.green, msg.as_str(), &col.reset)));
            assert(msg@ == msg_tracked_and_added(fv.len() as int, gl@.len() as int));
            let ghost fin = add_to_groups(w, col@, gl@, fv, all);
            assert(fin.2 == Ok::<(), Seq<char>>(()));
            assert(eq_up_to_times(db@, fin.0));
            assert(view_outputs(outs@) == first_lines + fin.1 + seq![OutputView::Text(line(col@.green, msg_tracked_and_added(fv.len() as int, gl@.len() as int), col@.reset))]);
            success(outs)
        },
    }
}

} // verus!
