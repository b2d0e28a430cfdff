use vstd::prelude::*;

verus! {

/// The `i`-th step of `path` is a link of `edges`.
pub open spec fn edge_at(edges: Set<(i64, i64)>, path: Seq<i64>, i: int) -> bool {
    edges.contains((path[i], path[i + 1]))
}

/// Every consecutive pair of `path` is a link of `edges`.
pub open spec fn is_walk(edges: Set<(i64, i64)>, path: Seq<i64>) -> bool {
    forall|i: int| 0 <= i < path.len() - 1 ==> #[trigger] edge_at(edges, path, i)
}

/// `to` lies below `from`: a chain of one or more links of `edges` leads
/// from `from` to `to`.
pub open spec fn descends(edges: Set<(i64, i64)>, from: i64, to: i64) -> bool {
    exists|path: Seq<i64>|
        #[trigger] is_walk(edges, path) && path.len() >= 2 && path[0] == from && path.last() == to
}

/// `to` is `from` or lies below it.
pub open spec fn reaches(edges: Set<(i64, i64)>, from: i64, to: i64) -> bool {
    from == to || descends(edges, from, to)
}

/// No group lies below itself.
pub open spec fn acyclic(edges: Set<(i64, i64)>) -> bool {
    forall|g: i64| !#[trigger] descends(edges, g, g)
}

/// Linking `child` under `parent` closes a cycle exactly when they are the
/// same group or `parent` already lies below `child`.
pub open spec fn closes_cycle(edges: Set<(i64, i64)>, parent: i64, child: i64) -> bool {
    reaches(edges, child, parent)
}

pub proof fn lemma_walk_push(edges: Set<(i64, i64)>, path: Seq<i64>, x: i64)
    requires
        is_walk(edges, path),
        path.len() >= 1,
        edges.contains((path.last(), x)),
    ensures
        is_walk(edges, path.push(x)),
{
    let w = path.push(x);
    assert forall|i: int| 0 <= i < w.len() - 1 implies #[trigger] edge_at(edges, w, i) by {
        if i < path.len() - 1 {
            assert(edge_at(edges, path, i));
        }
    }
}

pub proof fn lemma_walk_prefix(edges: Set<(i64, i64)>, path: Seq<i64>)
    requires
        is_walk(edges, path),
        path.len() >= 1,
    ensures
        is_walk(edges, path.drop_last()),
{
    let w = path.drop_last();
    assert forall|i: int| 0 <= i < w.len() - 1 implies #[trigger] edge_at(edges, w, i) by {
        assert(edge_at(edges, path, i));
    }
}

/// A single link is a descent.
pub proof fn lemma_descends_edge(edges: Set<(i64, i64)>, a: i64, b: i64)
    requires
        edges.contains((a, b)),
    ensures
        descends(edges, a, b),
{
    let w = seq![a, b];
    assert(edge_at(edges, w, 0));
    assert(is_walk(edges, w));
}

/// Following one more link extends a path that starts at `a`.
pub proof fn lemma_reaches_then_edge(edges: Set<(i64, i64)>, a: i64, b: i64, c: i64)
    requires
        reaches(edges, a, b),
        edges.contains((b, c)),
    ensures
        descends(edges, a, c),
{
    if a == b {
        lemma_descends_edge(edges, a, c);
    } else {
        let w = choose|w: Seq<i64>|
            #[trigger] is_walk(edges, w) && w.len() >= 2 && w[0] == a && w.last() == b;
        lemma_walk_push(edges, w, c);
        assert(w.push(c)[0] == a);
        assert(is_walk(edges, w.push(c)));
    }
}

/// A walk of one or more groups shows that its first group reaches its
/// last.
pub proof fn lemma_walk_reaches(edges: Set<(i64, i64)>, w: Seq<i64>)
    requires
        is_walk(edges, w),
        w.len() >= 1,
    ensures
        reaches(edges, w[0], w.last()),
{
    if w.len() >= 2 {
        assert(is_walk(edges, w));
    }
}

/// Descent is transitive.
pub proof fn lemma_reaches_transitive(edges: Set<(i64, i64)>, a: i64, b: i64, c: i64)
    requires
        reaches(edges, a, b),
        reaches(edges, b, c),
    ensures
        reaches(edges, a, c),
{
    if a != b && b != c {
        let w2 = choose|w: Seq<i64>|
            #[trigger] is_walk(edges, w) && w.len() >= 2 && w[0] == b && w.last() == c;
        lemma_reaches_prefix_walk(edges, a, w2, w2.len() as int);
    }
}

/// If `a` reaches the start of a walk, it reaches each of the walk's
/// groups.
proof fn lemma_reaches_prefix_walk(edges: Set<(i64, i64)>, a: i64, w: Seq<i64>, k: int)
    requires
        is_walk(edges, w),
        1 <= k <= w.len(),
        reaches(edges, a, w[0]),
    ensures
        reaches(edges, a, w[k - 1]),
    decreases k,
{
    if k > 1 {
        lemma_reaches_prefix_walk(edges, a, w, k - 1);
        assert(edge_at(edges, w, k - 2));
        lemma_reaches_then_edge(edges, a, w[k - 2], w[k - 1]);
    }
}

/// Removing links never creates a descent.
pub proof fn lemma_descends_subset(small: Set<(i64, i64)>, big: Set<(i64, i64)>, a: i64, b: i64)
    requires
        small.subset_of(big),
        descends(small, a, b),
    ensures
        descends(big, a, b),
{
    let w = choose|w: Seq<i64>|
        #[trigger] is_walk(small, w) && w.len() >= 2 && w[0] == a && w.last() == b;
    assert forall|i: int| 0 <= i < w.len() - 1 implies #[trigger] edge_at(big, w, i) by {
        assert(edge_at(small, w, i));
    }
    assert(is_walk(big, w));
}

/// A walk over `edges` plus the link (p, c) either uses only `edges`, or
/// passes from its start to `p` and from `c` to its end over `edges`.
proof fn lemma_walk_with_new_edge(edges: Set<(i64, i64)>, p: i64, c: i64, w: Seq<i64>)
    requires
        is_walk(edges.insert((p, c)), w),
        w.len() >= 1,
    ensures
        is_walk(edges, w) || (reaches(edges, w[0], p) && reaches(edges, c, w.last())),
    decreases w.len(),
{
    let big = edges.insert((p, c));
    if w.len() >= 2 {
        let w0 = w.drop_last();
        lemma_walk_prefix(big, w);
        lemma_walk_with_new_edge(edges, p, c, w0);
        assert(edge_at(big, w, w.len() - 2));
        assert(w0.last() == w[w.len() - 2]);
        if edges.contains((w0.last(), w.last())) {
            if is_walk(edges, w0) {
                lemma_walk_push(edges, w0, w.last());
                assert(w0.push(w.last()) =~= w);
            } else {
                lemma_reaches_then_edge(edges, c, w0.last(), w.last());
            }
        } else {
            assert(w0.last() == p && w.last() == c);
            if is_walk(edges, w0) {
                lemma_walk_reaches(edges, w0);
            }
        }
    }
}

/// Adding the link (p, c) to an acyclic hierarchy keeps it acyclic when
/// the link does not close a cycle.
pub proof fn lemma_add_edge_keeps_acyclic(edges: Set<(i64, i64)>, p: i64, c: i64)
    requires
        acyclic(edges),
        !closes_cycle(edges, p, c),
    ensures
        acyclic(edges.insert((p, c))),
{
    let big = edges.insert((p, c));
    assert forall|g: i64| !#[trigger] descends(big, g, g) by {
        if descends(big, g, g) {
            let w = choose|w: Seq<i64>|
                #[trigger] is_walk(big, w) && w.len() >= 2 && w[0] == g && w.last() == g;
            lemma_walk_with_new_edge(edges, p, c, w);
            if is_walk(edges, w) {
                assert(descends(edges, g, g));
            } else {
                lemma_reaches_transitive(edges, c, g, p);
            }
        }
    }
}

/// Removing links keeps a hierarchy acyclic.
pub proof fn lemma_subset_keeps_acyclic(small: Set<(i64, i64)>, big: Set<(i64, i64)>)
    requires
        acyclic(big),
        small.subset_of(big),
    ensures
        acyclic(small),
{
    assert forall|g: i64| !#[trigger] descends(small, g, g) by {
        if descends(small, g, g) {
            lemma_descends_subset(small, big, g, g);
        }
    }
}

} // verus!
