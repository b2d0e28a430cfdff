use vstd::prelude::*;

verus! {

/// Which pairs of a link table a statement selects.
pub enum PairFilter {
    /// The pair with these two ids.
    Exactly(i64, i64),
    /// The pairs whose first id is this one.
    First(i64),
    /// The pairs whose second id is this one.
    Second(i64),
    /// The pairs that name this id on either side.
    Either(i64),
}

pub open spec fn pair_matches(f: PairFilter, p: (i64, i64)) -> bool {
    match f {
        PairFilter::Exactly(a, b) => p.0 == a && p.1 == b,
        PairFilter::First(a) => p.0 == a,
        PairFilter::Second(b) => p.1 == b,
        PairFilter::Either(x) => p.0 == x || p.1 == x,
    }
}

fn pair_matches_exec(f: &PairFilter, p: (i64, i64)) -> (res: bool)
    ensures
        res == pair_matches(*f, p),
{
    match f {
        PairFilter::Exactly(a, b) => p.0 == *a && p.1 == *b,
        PairFilter::First(a) => p.0 == *a,
        PairFilter::Second(b) => p.1 == *b,
        PairFilter::Either(x) => p.0 == *x || p.1 == *x,
    }
}

/// Whether the link table holds the pair (a, b).
pub fn contains_pair(v: &Vec<(i64, i64)>, a: i64, b: i64) -> (res: bool)
    ensures
        res == v@.to_set().contains((a, b)),
{
    let mut i: usize = 0;
    while i < v.len()
        invariant
            0 <= i <= v.len(),
            forall|k: int| 0 <= k < i ==> v@[k] != (a, b),
        decreases v.len() - i,
    {
        let p = v[i];
        if p.0 == a && p.1 == b {
            assert(v@[i as int] == (a, b));
            assert(v@.contains((a, b)));
            return true;
        }
        i = i + 1;
    }
    assert(!v@.contains((a, b)));
    false
}

/// The link table without the pairs that the filter selects.
pub fn retain_unmatched(v: &Vec<(i64, i64)>, f: PairFilter) -> (r: Vec<(i64, i64)>)
    ensures
        r@.to_set() == v@.to_set().filter(|p: (i64, i64)| !pair_matches(f, p)),
        v@.no_duplicates() ==> r@.no_duplicates(),
{
    let mut r: Vec<(i64, i64)> = Vec::new();
    let mut i: usize = 0;
    while i < v.len()
        invariant
            0 <= i <= v.len(),
            forall|p: (i64, i64)| #[trigger] r@.contains(p) ==> v@.contains(p) && !pair_matches(f, p),
            forall|k: int| 0 <= k < i && !pair_matches(f, #[trigger] v@[k]) ==> r@.contains(v@[k]),
            forall|j: int| 0 <= j < r@.len() ==> exists|k: int| 0 <= k < i && v@[k] == #[trigger] r@[j],
            v@.no_duplicates() ==> r@.no_duplicates(),
        decreases v.len() - i,
    {
        let p = v[i];
        assert(v@[i as int] == p);
        assert(v@.contains(p));
        let ghost old_r = r@;
        if !pair_matches_exec(&f, p) {
            assert(!pair_matches(f, p));
            proof {
                if v@.no_duplicates() {
                    assert forall|j: int| 0 <= j < old_r.len() implies old_r[j] != p by {
                        let k = choose|k: int| 0 <= k < i && v@[k] == #[trigger] old_r[j];
                        assert(v@[k] != v@[i as int]);
                    }
                }
            }
            r.push(p);
            assert forall|j: int| 0 <= j < r@.len() implies exists|k: int| 0 <= k < i + 1 && v@[k] == #[trigger] r@[j] by {
                if j < old_r.len() {
                    assert(r@[j] == old_r[j]);
                    let k = choose|k: int| 0 <= k < i && v@[k] == #[trigger] old_r[j];
                    assert(v@[k] == r@[j]);
                } else {
                    assert(v@[i as int] == r@[j]);
                }
            }
            assert(v@.no_duplicates() ==> r@.no_duplicates()) by {
                if v@.no_duplicates() {
                    assert forall|a: int, b: int| 0 <= a < b < r@.len() implies r@[a] != r@[b] by {
                        if b == old_r.len() {
                            assert(r@[a] == old_r[a]);
                        } else {
                            assert(r@[a] == old_r[a]);
                            assert(r@[b] == old_r[b]);
                        }
                    }
                }
            }
            assert(r@ == old_r.push(p));
            assert(r@[r@.len() - 1] == p);
            assert forall|q: (i64, i64)| #[trigger] r@.contains(q) implies v@.contains(q) && !pair_matches(f, q) by {
                let j = choose|j: int| 0 <= j < r@.len() && r@[j] == q;
                if j < old_r.len() {
                    assert(old_r[j] == q);
                    assert(old_r.contains(q));
                    assert(v@.contains(q));
                    assert(!pair_matches(f, q));
                } else {
                    assert(q == p);
                    assert(v@.contains(q));
                    assert(!pair_matches(f, q));
                }
            }
            assert forall|k: int| 0 <= k < i + 1 && !pair_matches(f, #[trigger] v@[k]) implies r@.contains(v@[k]) by {
                if k < i {
                    let j = choose|j: int| 0 <= j < old_r.len() && old_r[j] == v@[k];
                    assert(r@[j] == v@[k]);
                } else {
                    assert(r@[r@.len() - 1] == v@[k]);
                }
            }
        }
        i = i + 1;
    }
    assert forall|p: (i64, i64)|
        v@.to_set().filter(|p: (i64, i64)| !pair_matches(f, p)).contains(p) implies r@.contains(p) by {
        let k = choose|k: int| 0 <= k < v@.len() && v@[k] == p;
        assert(!pair_matches(f, v@[k]));
    }
    assert(r@.to_set() =~= v@.to_set().filter(|p: (i64, i64)| !pair_matches(f, p)));
    r
}

/// Adds the pair (a, b) to the link table unless it is there already.
pub fn insert_pair(v: &mut Vec<(i64, i64)>, a: i64, b: i64)
    ensures
        final(v)@.to_set() == old(v)@.to_set().insert((a, b)),
        old(v)@.contains((a, b)) ==> final(v)@ == old(v)@,
        !old(v)@.contains((a, b)) ==> final(v)@ == old(v)@.push((a, b)),
        old(v)@.no_duplicates() ==> final(v)@.no_duplicates(),
{
    if !contains_pair(v, a, b) {
        let ghost before = v@;
        v.push((a, b));
        assert forall|p: (i64, i64)| #[trigger] v@.contains(p) <==> before.contains(p) || p == (a, b) by {
            if v@.contains(p) {
                let k = choose|k: int| 0 <= k < v@.len() && v@[k] == p;
                if k < before.len() {
                    assert(before[k] == p);
                }
            }
            if before.contains(p) {
                let k = choose|k: int| 0 <= k < before.len() && before[k] == p;
                assert(v@[k] == p);
            }
            if p == (a, b) {
                assert(v@[before.len() as int] == p);
            }
        }
        assert(v@.to_set() =~= before.to_set().insert((a, b)));
        assert(before.no_duplicates() ==> v@.no_duplicates()) by {
            if before.no_duplicates() {
                assert forall|i: int, j: int| 0 <= i < j < v@.len() implies v@[i] != v@[j] by {
                    if j == before.len() {
                        assert(v@[i] == before[i]);
                        assert(!before.contains((a, b)));
                    }
                }
            }
        }
    } else {
        assert(v@.to_set() =~= v@.to_set().insert((a, b)));
    }
}

/// Removes the pair (a, b) from the link table.
pub fn remove_pair(v: &mut Vec<(i64, i64)>, a: i64, b: i64)
    ensures
        final(v)@.to_set() == old(v)@.to_set().remove((a, b)),
        old(v)@.no_duplicates() ==> final(v)@.no_duplicates(),
{
    let r = retain_unmatched(v, PairFilter::Exactly(a, b));
    *v = r;
    assert(v@.to_set() =~= old(v)@.to_set().remove((a, b)));
}

} // verus!
