use vstd::prelude::*;
use crate::utils::text::decimal;

verus! {

/// `a`, then `x`, then `b`.
pub open spec fn fill1(a: Seq<char>, x: Seq<char>, b: Seq<char>) -> Seq<char> {
    a + x + b
}

/// `a`, then `x`, then `b`, then `y`, then `c`.
pub open spec fn fill2(a: Seq<char>, x: Seq<char>, b: Seq<char>, y: Seq<char>, c: Seq<char>) -> Seq<
    char,
> {
    a + x + b + y + c
}

/// A line printed in a color: the color, the body, the reset and a line
/// break.
pub open spec fn line(color: Seq<char>, body: Seq<char>, reset: Seq<char>) -> Seq<char> {
    color + body + reset + "\n"@
}

/// A message in a color, without a line break.
pub open spec fn colored(color: Seq<char>, body: Seq<char>, reset: Seq<char>) -> Seq<char> {
    color + body + reset
}

pub fn text1(a: &str, x: &str, b: &str) -> (res: String)
    ensures
        res@ == fill1(a@, x@, b@),
{
    let mut s = String::from_str(a);
    s.append(x);
    s.append(b);
    s
}

pub fn text2(a: &str, x: &str, b: &str, y: &str, c: &str) -> (res: String)
    ensures
        res@ == fill2(a@, x@, b@, y@, c@),
{
    let mut s = String::from_str(a);
    s.append(x);
    s.append(b);
    s.append(y);
    s.append(c);
    s
}

pub fn make_line(color: &String, body: &str, reset: &String) -> (res: String)
    ensures
        res@ == line(color@, body@, reset@),
{
    let mut s = color.clone();
    s.append(body);
    s.append(reset.as_str());
    s.append("\n");
    s
}

pub fn make_colored(color: &String, body: &str, reset: &String) -> (res: String)
    ensures
        res@ == colored(color@, body@, reset@),
{
    let mut s = color.clone();
    s.append(body);
    s.append(reset.as_str());
    s
}

pub open spec fn msg_refuse_reset() -> Seq<char> {
    "Refusing to reset database without --force flag"@
}

pub open spec fn msg_reset_done() -> Seq<char> {
    "Reset entire db"@
}

pub open spec fn msg_file_tracked(id: i64) -> Seq<char> {
    "File is now tracked with id "@ + decimal(id as int)
}

pub open spec fn msg_file_lost() -> Seq<char> {
    "File could not be found"@
}

pub open spec fn msg_group_not_found(id: i64) -> Seq<char> {
    fill1("Group with id "@, decimal(id as int), " not found"@)
}

pub open spec fn msg_file_not_found(id: i64) -> Seq<char> {
    fill1("File with id "@, decimal(id as int), " not found"@)
}

pub open spec fn msg_file_added(path: Seq<char>, group: Seq<char>) -> Seq<char> {
    fill2("Added file ("@, path, ") to group '"@, group, "'"@)
}

pub open spec fn msg_tracked_and_added(files: int, groups: int) -> Seq<char> {
    fill2("Tracked and added "@, decimal(files), " files to "@, decimal(groups), " different groups"@)
}

pub open spec fn msg_tracked(files: int) -> Seq<char> {
    fill1("Tracked "@, decimal(files), " files"@)
}

pub open spec fn msg_untracked(path: Seq<char>) -> Seq<char> {
    fill1("File is no longer being tracked ("@, path, ")"@)
}

pub open spec fn msg_group_not_created(name: Seq<char>) -> Seq<char> {
    fill1("Could not create group '"@, name, "'"@)
}

pub open spec fn msg_group_created(name: Seq<char>, id: i64) -> Seq<char> {
    fill2("Group '"@, name, "'(id: "@, decimal(id as int), ") created"@)
}

pub open spec fn msg_group_deleted(name: Seq<char>, id: i64) -> Seq<char> {
    fill2("Group '"@, name, "'(id: "@, decimal(id as int), ") deleted"@)
}

pub open spec fn msg_file_removed(path: Seq<char>, group: Seq<char>) -> Seq<char> {
    fill2("Removed file ("@, path, ") from group '"@, group, "'"@)
}

pub open spec fn msg_files_in_group(n: int, group: Seq<char>) -> Seq<char> {
    decimal(n) + " files in group '"@ + group + "':"@
}

pub open spec fn msg_has_file(group: Seq<char>, path: Seq<char>) -> Seq<char> {
    fill2("Group '"@, group, "' has file ("@, path, ")"@)
}

pub open spec fn msg_lacks_file(group: Seq<char>, path: Seq<char>) -> Seq<char> {
    fill2("Group '"@, group, "' does not have file ("@, path, ")"@)
}

pub open spec fn msg_self_child() -> Seq<char> {
    "Can not add group to itself"@
}

pub open spec fn msg_cycle(child: Seq<char>, parent: Seq<char>) -> Seq<char> {
    fill2("Adding child '"@, child, "' to parent '"@, parent, "' would create a cycle"@)
}

pub open spec fn msg_child_added(child: Seq<char>, parent: Seq<char>) -> Seq<char> {
    fill2("Added child '"@, child, "' to parent '"@, parent, "'"@)
}

pub open spec fn msg_self_unchild() -> Seq<char> {
    "Can not remove group from itself"@
}

pub open spec fn msg_not_a_child(child: Seq<char>, parent: Seq<char>) -> Seq<char> {
    fill2("Group '"@, child, "' is not a child of group '"@, parent, "'"@)
}

pub open spec fn msg_child_removed(child: Seq<char>, parent: Seq<char>) -> Seq<char> {
    fill2("Removed child '"@, child, "' from parent '"@, parent, "'"@)
}

pub open spec fn msg_children_in_group(n: int, group: Seq<char>) -> Seq<char> {
    decimal(n) + " children in group '"@ + group + "':"@
}

pub open spec fn msg_has_child(parent: Seq<char>, child: Seq<char>) -> Seq<char> {
    fill2("Group '"@, parent, "' has child '"@, child, "'"@)
}

pub open spec fn msg_lacks_child(parent: Seq<char>, child: Seq<char>) -> Seq<char> {
    fill2("Group '"@, parent, "' does not have child '"@, child, "'"@)
}

pub open spec fn msg_tag_not_created(tag: Seq<char>) -> Seq<char> {
    fill1("Could not create Tag '"@, tag, "'"@)
}

pub open spec fn msg_tag_added(tag: Seq<char>, group: Seq<char>) -> Seq<char> {
    fill2("Added tag '"@, tag, "' to group '"@, group, "'"@)
}

pub open spec fn msg_tag_missing(tag: Seq<char>) -> Seq<char> {
    fill1("Tag '"@, tag, "' does not exist"@)
}

pub open spec fn msg_tag_removed(tag: Seq<char>, group: Seq<char>) -> Seq<char> {
    fill2("Removed tag '"@, tag, "' from group '"@, group, "'"@)
}

pub open spec fn msg_tags_in_group(n: int, group: Seq<char>) -> Seq<char> {
    decimal(n) + " tags in group '"@ + group + "':"@
}

pub open spec fn msg_has_tag(group: Seq<char>, tag: Seq<char>) -> Seq<char> {
    fill2("Group '"@, group, "' has tag '"@, tag, "'"@)
}

pub open spec fn msg_lacks_tag(group: Seq<char>, tag: Seq<char>) -> Seq<char> {
    fill2("Group '"@, group, "' does not have tag '"@, tag, "'"@)
}

/// The texts joined with `sep` between each two.
pub open spec fn join(texts: Seq<Seq<char>>, sep: Seq<char>) -> Seq<char>
    decreases texts.len(),
{
    if texts.len() == 0 {
        Seq::empty()
    } else if texts.len() == 1 {
        texts[0]
    } else {
        join(texts.drop_last(), sep) + sep + texts.last()
    }
}

} // verus!
