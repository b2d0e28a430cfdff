use vstd::prelude::*;
use crate::domain::file::File;
use crate::domain::group::Group;
use crate::services::file_service::view_texts;
use crate::utils::text::{decimal, int_text};

verus! {

/// The UTC date and time of a Unix timestamp as chrono writes it with the
/// pattern `%d-%m-%Y %H:%M:%S`; `None` when chrono cannot represent the
/// timestamp.
pub uninterp spec fn formatted_timestamp(ts: i64) -> Option<Seq<char>>;

pub open spec fn view_opt_text(s: Option<String>) -> Option<Seq<char>> {
    match s {
        Some(t) => Some(t@),
        None => None,
    }
}

/// Formats a Unix timestamp with chrono: `DateTime::from_timestamp(ts, 0)`,
/// then `format("%d-%m-%Y %H:%M:%S")`. The contract names the text (a
/// function of `ts` alone) and claims, from chrono's date range (years
/// -262144 to 262143), that every timestamp from 1970 up to the end of the
/// year 9999 can be formatted.
#[verifier::external_body]
fn format_timestamp(ts: i64) -> (res: Option<String>)
    ensures
        view_opt_text(res) == formatted_timestamp(ts),
        0 <= ts <= 253_402_300_799 ==> res is Some,
{
    match chrono::DateTime::from_timestamp(ts, 0) {
        Some(d) => Some(d.format("%d-%m-%Y %H:%M:%S").to_string()),
        None => None,
    }
}

/// The cells of a file's row in a table of files: its id, its creation
/// time and its path; `None` when the creation time cannot be formatted.
pub fn file_row(file: &File) -> (res: Option<Vec<String>>)
    ensures
        match formatted_timestamp(file.created_at) {
            None => res is None,
            Some(d) => res matches Some(r) && view_texts(r@) == seq![decimal(file.id as int), d, file.path@],
        },
{
    match format_timestamp(file.created_at) {
        None => None,
        Some(d) => {
            let mut row: Vec<String> = Vec::new();
            row.push(int_text(file.id as i128));
            row.push(d);
            row.push(file.path.clone());
            assert(view_texts(row@) =~= seq![decimal(file.id as int), formatted_timestamp(file.created_at).unwrap(), file.path@]);
            Some(row)
        },
    }
}

/// The cells of a group's row in a table of groups: its id, its name, its
/// creation time and its description; `None` when the creation time cannot
/// be formatted.
pub fn group_row(group: &Group) -> (res: Option<Vec<String>>)
    ensures
        match formatted_timestamp(group.created_at) {
            None => res is None,
            Some(d) => res matches Some(r) && view_texts(r@) == seq![
                decimal(group.id as int),
                group.name@,
                d,
                group.description@,
            ],
        },
{
    match format_timestamp(group.created_at) {
        None => None,
        Some(d) => {
            let mut row: Vec<String> = Vec::new();
            row.push(int_text(group.id as i128));
            row.push(group.name.clone());
            row.push(d);
            row.push(group.description.clone());
            assert(view_texts(row@) =~= seq![
                decimal(group.id as int),
                group.name@,
                formatted_timestamp(group.created_at).unwrap(),
                group.description@,
            ]);
            Some(row)
        },
    }
}

} // verus!
