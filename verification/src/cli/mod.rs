pub mod messages;
pub mod commands;

use vstd::prelude::*;
use crate::cli::commands::{
    reset_db_outcome,
    track_files_outcome,
    untrack_file_outcome,
    get_file_outcome,
    list_files_outcome,
    create_group_outcome,
    delete_group_outcome,
    get_group_outcome,
    list_groups_outcome,
    group_add_file_outcome,
    group_remove_file_outcome,
    group_list_files_outcome,
    group_has_file_outcome,
    group_add_child_outcome,
    group_remove_child_outcome,
    group_list_children_outcome,
    group_has_child_outcome,
    group_add_tag_outcome,
    group_remove_tag_outcome,
    group_list_tags_outcome,
    group_has_tag_outcome,
    add_to_groups,
    tag_for,
    view_opt_ids,
    view_opt_string,
};
use crate::cli::messages::{colored, fill1};
use crate::config::{Colors, ColorsView, Config, ansi_colors, no_colors};
use crate::db::database::{Database, DbView, eq_up_to_times, view_files, view_groups};
use crate::db::rows::rows_kept;
use crate::db::hierarchy::{acyclic, lemma_add_edge_keeps_acyclic, lemma_subset_keeps_acyclic};
use crate::services::file_service::{CollectError, track_all, track_one, view_texts};
use crate::services::group_service::{add_all, create_one, description_or_empty};
use crate::services::tag_service::create_tag_one;
use crate::domain::file::{File, FileView};
use crate::domain::group::{Group, GroupView};

verus! {

/// A command line: one command.
pub struct Cli {
    pub command: Commands,
}

/// The commands of the command line tool.
pub enum Commands {
    ResetDB { force: bool },
    TrackFile { path: String, groups: Option<Vec<i64>> },
    TrackFiles { paths: Vec<String>, groups: Option<Vec<i64>>, recursive: bool },
    UntrackFile { file_id: i64 },
    GetFile { file_id: i64 },
    ListFiles,
    CreateGroup { group_name: String, description: Option<String> },
    DeleteGroup { group_id: i64 },
    GetGroup { group_id: i64 },
    ListGroups,
    GroupAddFile { group_id: i64, file_id: i64 },
    GroupRemoveFile { group_id: i64, file_id: i64 },
    GroupListFiles { group_id: i64 },
    GroupHasFile { group_id: i64, file_id: i64 },
    GroupAddChild { parent_group_id: i64, child_group_id: i64 },
    GroupRemoveChild { parent_group_id: i64, child_group_id: i64 },
    GroupListChildren { parent_group_id: i64 },
    GroupHasChild { parent_group_id: i64, child_group_id: i64 },
    GroupAddTag { group_id: i64, tag: String },
    GroupRemoveTag { group_id: i64, tag: String },
    GroupListTags { group_id: i64 },
    GroupHasTag { group_id: i64, tag: String },
}

/// A piece of what a command prints: text as it stands, or a table of files
/// or of groups.
#[derive(Debug)]
pub enum Output {
    Text(String),
    Files(Vec<File>),
    Groups(Vec<Group>),
}

/// The mathematical value of an [`Output`].
pub enum OutputView {
    Text(Seq<char>),
    Files(Seq<FileView>),
    Groups(Seq<GroupView>),
}

impl View for Output {
    type V = OutputView;

    open spec fn view(&self) -> OutputView {
        match self {
            Output::Text(s) => OutputView::Text(s@),
            Output::Files(v) => OutputView::Files(view_files(v@)),
            Output::Groups(v) => OutputView::Groups(view_groups(v@)),
        }
    }
}

pub open spec fn view_outputs(s: Seq<Output>) -> Seq<OutputView> {
    s.map_values(|o: Output| o@)
}

pub open spec fn view_result(r: Result<(), String>) -> Result<(), Seq<char>> {
    match r {
        Ok(()) => Ok(()),
        Err(e) => Err(e@),
    }
}

/// What a command printed, in order, and how it ended: `Ok`, or the error
/// message.
pub struct Report {
    pub outputs: Vec<Output>,
    pub result: Result<(), String>,
}

/// What a command does: the database after (creation times left at 0),
/// what it prints and how it ends.
pub struct RunOutcome {
    pub db: DbView,
    pub out: Seq<OutputView>,
    pub result: Result<(), Seq<char>>,
}

/// The database `db`, which a command left of `old`, and the report `rep`
/// are what the outcome describes: the database is the outcome's but for
/// the creation times of the rows the command added, and every row that
/// `old` held and `db` still holds is unchanged.
pub open spec fn realizes(old: DbView, db: DbView, rep: Report, o: RunOutcome) -> bool {
    &&& eq_up_to_times(db, o.db)
    &&& rows_kept(old, db)
    &&& view_outputs(rep.outputs@) == o.out
    &&& view_result(rep.result) == o.result
}

/// The colors that a configuration prints with.
pub open spec fn colors_of(config: Config) -> ColorsView {
    if config.color {
        ansi_colors()
    } else {
        no_colors()
    }
}

/// What a command does on the database `v`, printing with colors `c`.
/// For a `TrackFile` or `TrackFiles` command, `collected` holds the
/// canonical paths that collecting its paths gave. `TrackFile` tracks one
/// file as `TrackFiles` tracks the files of directories.
pub open spec fn run_outcome(v: DbView, c: ColorsView, command: Commands, collected: Seq<Seq<char>>) -> RunOutcome {
    match command {
        Commands::ResetDB { force } => reset_db_outcome(v, c, force),
        Commands::TrackFile { path, groups } => track_files_outcome(v, c, collected, view_opt_ids(groups)),
        Commands::TrackFiles { paths, groups, recursive } => track_files_outcome(v, c, collected, view_opt_ids(groups)),
        Commands::UntrackFile { file_id } => untrack_file_outcome(v, c, file_id),
        Commands::GetFile { file_id } => get_file_outcome(v, c, file_id),
        Commands::ListFiles => list_files_outcome(v),
        Commands::CreateGroup { group_name, description } => create_group_outcome(
            v,
            c,
            group_name@,
            view_opt_string(description),
        ),
        Commands::DeleteGroup { group_id } => delete_group_outcome(v, c, group_id),
        Commands::GetGroup { group_id } => get_group_outcome(v, c, group_id),
        Commands::ListGroups => list_groups_outcome(v),
        Commands::GroupAddFile { group_id, file_id } => group_add_file_outcome(v, c, group_id, file_id),
        Commands::GroupRemoveFile { group_id, file_id } => group_remove_file_outcome(v, c, group_id, file_id),
        Commands::GroupListFiles { group_id } => group_list_files_outcome(v, c, group_id),
        Commands::GroupHasFile { group_id, file_id } => group_has_file_outcome(v, c, group_id, file_id),
        Commands::GroupAddChild { parent_group_id, child_group_id } => group_add_child_outcome(
            v,
            c,
            parent_group_id,
            child_group_id,
        ),
        Commands::GroupRemoveChild { parent_group_id, child_group_id } => group_remove_child_outcome(
            v,
            c,
            parent_group_id,
            child_group_id,
        ),
        Commands::GroupListChildren { parent_group_id } => group_list_children_outcome(v, c, parent_group_id),
        Commands::GroupHasChild { parent_group_id, child_group_id } => group_has_child_outcome(
            v,
            c,
            parent_group_id,
            child_group_id,
        ),
        Commands::GroupAddTag { group_id, tag } => group_add_tag_outcome(v, c, group_id, tag@),
        Commands::GroupRemoveTag { group_id, tag } => group_remove_tag_outcome(v, c, group_id, tag@),
        Commands::GroupListTags { group_id } => group_list_tags_outcome(v, c, group_id),
        Commands::GroupHasTag { group_id, tag } => group_has_tag_outcome(v, c, group_id, tag@),
    }
}

/// Runs one command on the database and reports what it printed and how
/// it ended. For a `TrackFile` or `TrackFiles` command, `collected` holds
/// the canonical paths that collecting its paths gave (see
/// `file_service::collect_for`); other commands do not read it. The group
/// hierarchy stays acyclic, every row that stays keeps its value, and a
/// command whose outcome leaves the database as it was leaves it exactly
/// as it was.
pub fn run(cli: Cli, db: &mut Database, config: &Config, collected: &Vec<String>) -> (rep: Report)
    requires
        old(db).wf(),
    ensures
        final(db).wf(),
        realizes(old(db)@, final(db)@, rep, run_outcome(old(db)@, colors_of(*config), cli.command, view_texts(collected@))),
        acyclic(old(db)@.group_children) ==> acyclic(final(db)@.group_children),
        run_outcome(old(db)@, colors_of(*config), cli.command, view_texts(collected@)).db == old(db)@
            ==> final(db)@ == old(db)@,
{
    let colors = config.colors();
    let col = &colors;
    let ghost c = colors_of(*config);
    assert(col@ == c);
    let ghost command = cli.command;
    let rep = match cli.command {
        Commands::ResetDB { force } => commands::reset_db(db, col, force),
        Commands::TrackFile { path, groups } => commands::track_files(db, col, collected, &groups),
        Commands::TrackFiles { paths, groups, recursive } => commands::track_files(db, col, collected, &groups),
        Commands::UntrackFile { file_id } => commands::untrack_file(db, col, file_id),
        Commands::GetFile { file_id } => commands::get_file(db, col, file_id),
        Commands::ListFiles => commands::list_files(db),
        Commands::CreateGroup { group_name, description } => commands::create_group(db, col, &group_name, &description),
        Commands::DeleteGroup { group_id } => commands::delete_group(db, col, group_id),
        Commands::GetGroup { group_id } => commands::get_group(db, col, group_id),
        Commands::ListGroups => commands::list_groups(db),
        Commands::GroupAddFile { group_id, file_id } => commands::group_add_file(db, col, group_id, file_id),
        Commands::GroupRemoveFile { group_id, file_id } => commands::group_remove_file(db, col, group_id, file_id),
        Commands::GroupListFiles { group_id } => commands::group_list_files(db, col, group_id),
        Commands::GroupHasFile { group_id, file_id } => commands::group_has_file(db, col, group_id, file_id),
        Commands::GroupAddChild { parent_group_id, child_group_id } => commands::group_add_child(
            db,
            col,
            parent_group_id,
            child_group_id,
        ),
        Commands::GroupRemoveChild { parent_group_id, child_group_id } => commands::group_remove_child(
            db,
            col,
            parent_group_id,
            child_group_id,
        ),
        Commands::GroupListChildren { parent_group_id } => commands::group_list_children(db, col, parent_group_id),
        Commands::GroupHasChild { parent_group_id, child_group_id } => commands::group_has_child(
            db,
            col,
            parent_group_id,
            child_group_id,
        ),
        Commands::GroupAddTag { group_id, tag } => commands::group_add_tag(db, col, group_id, &tag),
        Commands::GroupRemoveTag { group_id, tag } => commands::group_remove_tag(db, col, group_id, &tag),
        Commands::GroupListTags { group_id } => commands::group_list_tags(db, col, group_id),
        Commands::GroupHasTag { group_id, tag } => commands::group_has_tag(db, col, group_id, &tag),
    };
    proof {
        if run_outcome(old(db)@, c, command, view_texts(collected@)).db == old(db)@ {
            crate::db::rows::lemma_rows_exact(db@, old(db)@);
        }
        if acyclic(old(db)@.group_children) {
            lemma_run_keeps_hierarchy_acyclic(old(db)@, c, command, view_texts(collected@));
        }
    }
    rep
}

/// The message for a path that cannot be collected.
pub open spec fn path_error_text(path: Seq<char>, e: CollectError, c: ColorsView) -> Seq<char> {
    match e {
        CollectError::NotFound => colored(c.red, fill1("Path '"@, path, "' does not exist"@), c.reset),
        CollectError::InvalidInput => colored(
            c.red,
            fill1("Path '"@, path, "' is not a directory or a file"@),
            c.reset,
        ),
        CollectError::NotAFile => colored(c.red, fill1("Path '"@, path, "' is not a file"@), c.reset),
        CollectError::NotADirectory => colored(c.red, fill1("Path '"@, path, "' is not a directory"@), c.reset),
    }
}

/// The message that a `TrackFile` or `TrackFiles` command fails with when
/// one of its paths cannot be collected.
pub fn path_error_message(path: &str, e: CollectError, colors: &Colors) -> (res: String)
    ensures
        res@ == path_error_text(path@, e, colors@),
{
    let body = match e {
        CollectError::NotFound => crate::cli::messages::text1("Path '", path, "' does not exist"),
        CollectError::InvalidInput => crate::cli::messages::text1("Path '", path, "' is not a directory or a file"),
        CollectError::NotAFile => crate::cli::messages::text1("Path '", path, "' is not a file"),
        CollectError::NotADirectory => crate::cli::messages::text1("Path '", path, "' is not a directory"),
    };
    crate::cli::messages::make_colored(&colors.red, body.as_str(), &colors.reset)
}

proof fn lemma_track_all_keeps_links(v: DbView, paths: Seq<Seq<char>>)
    ensures
        track_all(v, paths).0.group_children == v.group_children,
        track_all(v, paths).0.groups == v.groups,
    decreases paths.len(),
{
    if paths.len() > 0 {
        lemma_track_all_keeps_links(v, paths.drop_last());
    }
}

proof fn lemma_add_all_keeps_children(v: DbView, g: i64, ids: Seq<i64>)
    ensures
        add_all(v, g, ids).0.group_children == v.group_children,
    decreases ids.len(),
{
    if ids.len() > 0 {
        lemma_add_all_keeps_children(v, g, ids.drop_last());
    }
}

proof fn lemma_add_to_groups_keeps_children(
    v: DbView,
    c: ColorsView,
    gl: Seq<i64>,
    ids: Seq<i64>,
    paths: Seq<Seq<char>>,
)
    ensures
        add_to_groups(v, c, gl, ids, paths).0.group_children == v.group_children,
    decreases gl.len(),
{
    if gl.len() > 0 {
        lemma_add_to_groups_keeps_children(v, c, gl.drop_last(), ids, paths);
        let w = add_to_groups(v, c, gl.drop_last(), ids, paths).0;
        lemma_add_all_keeps_children(w, gl.last(), ids);
    }
}

/// Tracking files, into groups or not, adds no link between groups.
proof fn lemma_track_files_keeps_acyclic(v: DbView, c: ColorsView, collected: Seq<Seq<char>>, groups: Option<Vec<i64>>)
    ensures
        track_files_outcome(v, c, collected, view_opt_ids(groups)).db.group_children == v.group_children,
{
    reveal(track_files_outcome);
    lemma_track_all_keeps_links(v, collected);
    let w = track_all(v, collected).0;
    if let Some(gl) = groups {
        if let Ok(ids) = track_all(v, collected).1 {
            let lookup = if ids.len() != collected.len() {
                crate::cli::commands::ids_of_paths(w, collected)
            } else {
                Some(ids)
            };
            if let Some(fids) = lookup {
                lemma_add_to_groups_keeps_children(w, c, gl@, fids, collected);
            }
        }
    }
}

/// Every command keeps the group hierarchy acyclic: the only command that
/// adds a link between groups refuses one that would close a cycle, and
/// every other command keeps or drops links.
pub proof fn lemma_run_keeps_hierarchy_acyclic(v: DbView, c: ColorsView, command: Commands, collected: Seq<Seq<char>>)
    requires
        v.wf(),
        acyclic(v.group_children),
    ensures
        acyclic(run_outcome(v, c, command, collected).db.group_children),
{
    let o = run_outcome(v, c, command, collected);
    reveal(reset_db_outcome);
    reveal(track_files_outcome);
    reveal(untrack_file_outcome);
    reveal(get_file_outcome);
    reveal(list_files_outcome);
    reveal(create_group_outcome);
    reveal(delete_group_outcome);
    reveal(get_group_outcome);
    reveal(list_groups_outcome);
    reveal(group_add_file_outcome);
    reveal(group_remove_file_outcome);
    reveal(group_list_files_outcome);
    reveal(group_has_file_outcome);
    reveal(group_add_child_outcome);
    reveal(group_remove_child_outcome);
    reveal(group_list_children_outcome);
    reveal(group_has_child_outcome);
    reveal(group_add_tag_outcome);
    reveal(group_remove_tag_outcome);
    reveal(group_list_tags_outcome);
    reveal(group_has_tag_outcome);
    match command {
        Commands::ResetDB { force } => {
            if force {
                assert(o.db.group_children =~= Set::<(i64, i64)>::empty());
                lemma_subset_keeps_acyclic(o.db.group_children, v.group_children);
            }
        },
        Commands::TrackFile { path, groups } => {
            lemma_track_files_keeps_acyclic(v, c, collected, groups);
        },
        Commands::TrackFiles { paths, groups, recursive } => {
            lemma_track_files_keeps_acyclic(v, c, collected, groups);
        },
        Commands::DeleteGroup { group_id } => {
            if v.group_by_id(group_id) is Some {
                let i = v.group_index(group_id);
                lemma_subset_keeps_acyclic(v.without_group(i).group_children, v.group_children);
            }
        },
        Commands::GroupAddChild { parent_group_id, child_group_id } => {
            if parent_group_id != child_group_id && v.group_by_id(parent_group_id) is Some
                && v.group_by_id(child_group_id) is Some && !crate::db::hierarchy::closes_cycle(
                v.group_children,
                parent_group_id,
                child_group_id,
            ) {
                lemma_add_edge_keeps_acyclic(v.group_children, parent_group_id, child_group_id);
            }
        },
        Commands::GroupRemoveChild { parent_group_id, child_group_id } => {
            lemma_subset_keeps_acyclic(
                v.group_children.remove((parent_group_id, child_group_id)),
                v.group_children,
            );
        },
        _ => {},
    }
}

} // verus!
