use vstd::prelude::*;
use crate::services::file_service::{DirEntry, listed_dirs, listed_files};

verus! {

/// The listing of every directory, by path: what the file system would
/// hand the walk for each directory it lists.
pub type Listings = spec_fn(Seq<char>) -> Seq<DirEntry>;

/// The files under directory `d`, looked at up to `depth` levels deep: the
/// files that `d` lists, in listing order, then, when the walk is
/// recursive, the files under its subdirectories, the last listed first
/// (the order in which a walk that keeps its pending directories on a
/// stack reaches them).
pub open spec fn tree_files(ls: Listings, d: Seq<char>, recursive: bool, depth: nat) -> Seq<Seq<char>>
    decreases depth, 0nat,
{
    if depth == 0 {
        Seq::empty()
    } else if recursive {
        listed_files(ls(d)) + stack_files(ls, listed_dirs(ls(d)), recursive, (depth - 1) as nat)
    } else {
        listed_files(ls(d))
    }
}

/// The files under the directories of a stack of pending directories, the
/// top (last) one first.
pub open spec fn stack_files(ls: Listings, pending: Seq<Seq<char>>, recursive: bool, depth: nat) -> Seq<
    Seq<char>,
>
    decreases depth, pending.len(),
{
    if pending.len() == 0 {
        Seq::empty()
    } else {
        tree_files(ls, pending.last(), recursive, depth) + stack_files(
            ls,
            pending.drop_last(),
            recursive,
            depth,
        )
    }
}

/// The subtree of `d` that the walk explores is less than `depth` levels
/// deep (a finite directory tree).
pub open spec fn tree_within(ls: Listings, d: Seq<char>, recursive: bool, depth: nat) -> bool
    decreases depth,
{
    &&& depth > 0
    &&& recursive ==> forall|i: int|
        0 <= i < listed_dirs(ls(d)).len() ==> tree_within(
            ls,
            #[trigger] listed_dirs(ls(d))[i],
            recursive,
            (depth - 1) as nat,
        )
}

/// Every directory of the stack has its subtree within `depth` levels.
pub open spec fn stack_within(ls: Listings, pending: Seq<Seq<char>>, recursive: bool, depth: nat) -> bool {
    forall|i: int| 0 <= i < pending.len() ==> tree_within(ls, #[trigger] pending[i], recursive, depth)
}

/// One step of the walk: the top pending directory is taken off the stack
/// (`PathCollector::next_dir`) and its listing is taken in
/// (`PathCollector::visit`): its files join the result, and its
/// subdirectories join the stack when the walk is recursive.
pub open spec fn walk_step(
    ls: Listings,
    recursive: bool,
    pending: Seq<Seq<char>>,
    paths: Seq<Seq<char>>,
) -> (Seq<Seq<char>>, Seq<Seq<char>>) {
    let d = pending.last();
    (
        if recursive {
            pending.drop_last() + listed_dirs(ls(d))
        } else {
            pending.drop_last()
        },
        paths + listed_files(ls(d)),
    )
}

proof fn lemma_within_more(ls: Listings, d: Seq<char>, recursive: bool, k: nat, m: nat)
    requires
        tree_within(ls, d, recursive, k),
        k <= m,
    ensures
        tree_within(ls, d, recursive, m),
        tree_files(ls, d, recursive, m) == tree_files(ls, d, recursive, k),
    decreases k, 0nat,
{
    if recursive {
        let dirs = listed_dirs(ls(d));
        assert forall|i: int| 0 <= i < dirs.len() implies tree_within(ls, #[trigger] dirs[i], recursive, (m - 1) as nat) by {
            lemma_within_more(ls, dirs[i], recursive, (k - 1) as nat, (m - 1) as nat);
        }
        lemma_stack_more(ls, dirs, recursive, (k - 1) as nat, (m - 1) as nat);
    }
}

proof fn lemma_stack_more(ls: Listings, pending: Seq<Seq<char>>, recursive: bool, k: nat, m: nat)
    requires
        stack_within(ls, pending, recursive, k),
        k <= m,
    ensures
        stack_within(ls, pending, recursive, m),
        stack_files(ls, pending, recursive, m) == stack_files(ls, pending, recursive, k),
    decreases k, pending.len(),
{
    assert forall|i: int| 0 <= i < pending.len() implies tree_within(ls, #[trigger] pending[i], recursive, m) by {
        lemma_within_more(ls, pending[i], recursive, k, m);
    }
    if pending.len() > 0 {
        let front = pending.drop_last();
        assert forall|i: int| 0 <= i < front.len() implies tree_within(ls, #[trigger] front[i], recursive, k) by {
            assert(front[i] == pending[i]);
        }
        lemma_stack_more(ls, front, recursive, k, m);
        lemma_within_more(ls, pending[pending.len() - 1], recursive, k, m);
    }
}

proof fn lemma_stack_append(ls: Listings, below: Seq<Seq<char>>, top: Seq<Seq<char>>, recursive: bool, n: nat)
    ensures
        stack_files(ls, below + top, recursive, n) == stack_files(ls, top, recursive, n) + stack_files(
            ls,
            below,
            recursive,
            n,
        ),
    decreases top.len(),
{
    if top.len() == 0 {
        assert(below + top =~= below);
    } else {
        assert((below + top).drop_last() =~= below + top.drop_last());
        assert((below + top).last() == top.last());
        lemma_stack_append(ls, below, top.drop_last(), recursive, n);
    }
}

/// The walk starts with the root directory alone on the stack and nothing
/// collected; what is collected plus what the stack still holds is then
/// the whole tree's files.
pub proof fn law_walk_starts(ls: Listings, root: Seq<char>, recursive: bool, n: nat)
    requires
        tree_within(ls, root, recursive, n),
    ensures
        Seq::<Seq<char>>::empty() + stack_files(ls, seq![root], recursive, n) == tree_files(
            ls,
            root,
            recursive,
            n,
        ),
        stack_within(ls, seq![root], recursive, n),
{
    let p = seq![root];
    assert(p.drop_last() =~= Seq::<Seq<char>>::empty());
    assert(stack_files(ls, p.drop_last(), recursive, n) == Seq::<Seq<char>>::empty());
    assert(p.last() == root);
    assert(stack_files(ls, p, recursive, n) =~= tree_files(ls, root, recursive, n));
    assert(Seq::<Seq<char>>::empty() + stack_files(ls, p, recursive, n) =~= stack_files(ls, p, recursive, n));
}

/// Each step of the walk keeps "what is collected, followed by the files
/// under the pending directories" unchanged. With [`law_walk_starts`], once
/// no directory is pending the walk has collected exactly the files of the
/// tree under the root, in the order of [`tree_files`]: every file of every
/// subdirectory when the walk is recursive, the root's own files when not.
pub proof fn law_walk_step_keeps_files(
    ls: Listings,
    recursive: bool,
    n: nat,
    pending: Seq<Seq<char>>,
    paths: Seq<Seq<char>>,
)
    requires
        pending.len() > 0,
        stack_within(ls, pending, recursive, n),
    ensures
        ({
            let (p2, q2) = walk_step(ls, recursive, pending, paths);
            &&& stack_within(ls, p2, recursive, n)
            &&& q2 + stack_files(ls, p2, recursive, n) == paths + stack_files(ls, pending, recursive, n)
        }),
{
    let d = pending.last();
    let below = pending.drop_last();
    let (p2, q2) = walk_step(ls, recursive, pending, paths);
    assert(pending[pending.len() - 1] == d);
    assert(tree_within(ls, pending[pending.len() - 1], recursive, n));
    assert(n > 0);
    assert forall|i: int| 0 <= i < below.len() implies tree_within(ls, #[trigger] below[i], recursive, n) by {
        assert(below[i] == pending[i]);
    }
    if recursive {
        let dirs = listed_dirs(ls(d));
        lemma_stack_more(ls, dirs, recursive, (n - 1) as nat, n);
        lemma_stack_append(ls, below, dirs, recursive, n);
        assert forall|i: int| 0 <= i < p2.len() implies tree_within(ls, #[trigger] p2[i], recursive, n) by {
            if i < below.len() {
                assert(p2[i] == below[i]);
            } else {
                assert(p2[i] == dirs[i - below.len()]);
            }
        }
        assert(tree_files(ls, d, recursive, n) == listed_files(ls(d)) + stack_files(ls, dirs, recursive, (n - 1) as nat));
        assert(q2 + stack_files(ls, p2, recursive, n) =~= paths + stack_files(ls, pending, recursive, n));
    } else {
        assert(stack_files(ls, pending, recursive, n) == tree_files(ls, d, recursive, n) + stack_files(ls, below, recursive, n));
        assert(tree_files(ls, d, recursive, n) == listed_files(ls(d)));
        assert(p2 == below);
        assert(q2 + stack_files(ls, p2, recursive, n) =~= paths + stack_files(ls, pending, recursive, n));
    }
}

/// When the walk ends, with no directory pending, what it collected is
/// the tree's files.
pub proof fn law_walk_ends(
    ls: Listings,
    root: Seq<char>,
    recursive: bool,
    n: nat,
    paths: Seq<Seq<char>>,
)
    requires
        paths + stack_files(ls, Seq::empty(), recursive, n) == tree_files(ls, root, recursive, n),
    ensures
        paths == tree_files(ls, root, recursive, n),
{
    assert(paths + stack_files(ls, Seq::empty(), recursive, n) =~= paths);
}

} // verus!
