use vstd::prelude::*;

verus! {

/// A nearest-neighbour candidate: a key that orders distances from the query
/// (a smaller key is a smaller distance), and the handle of the stored vector.
pub type Neighbor = (u64, usize);

/// `a` comes strictly before `b`: nearer first, and at equal distance the
/// lower handle, that is the earlier insertion, first.
pub open spec fn precedes(a: Neighbor, b: Neighbor) -> bool {
    a.0 < b.0 || (a.0 == b.0 && a.1 < b.1)
}

pub open spec fn strictly_ordered(r: Seq<Neighbor>) -> bool {
    forall|i: int, j: int| 0 <= i < j < r.len() ==> precedes(r[i], r[j])
}

/// `r` lists, in order, the first `k` of the distinct candidates in `c`
/// (all of them where there are fewer than `k`).
pub open spec fn is_top_k(c: Seq<Neighbor>, k: nat, r: Seq<Neighbor>) -> bool {
    &&& r.len() <= k
    &&& strictly_ordered(r)
    &&& forall|i: int| 0 <= i < r.len() ==> c.contains(#[trigger] r[i])
    &&& forall|i: int|
        0 <= i < c.len() ==> r.contains(#[trigger] c[i]) || (r.len() == k && forall|t: int|
            0 <= t < r.len() ==> precedes(r[t], c[i]))
}

fn precedes_exec(a: Neighbor, b: Neighbor) -> (res: bool)
    ensures
        res == precedes(a, b),
{
    a.0 < b.0 || (a.0 == b.0 && a.1 < b.1)
}

/// Orders the candidates by distance, then by handle, drops repeated
/// candidates and keeps the first `k`.
pub fn rank_neighbors(candidates: &Vec<Neighbor>, k: usize) -> (r: Vec<Neighbor>)
    ensures
        is_top_k(candidates@, k as nat, r@),
{
    let mut r: Vec<Neighbor> = Vec::new();
    let mut i: usize = 0;
    while i < candidates.len()
        invariant
            i <= candidates.len(),
            is_top_k(candidates@.subrange(0, i as int), k as nat, r@),
        decreases candidates.len() - i,
    {
        let p = candidates[i];
        let ghost c0 = candidates@.subrange(0, i as int);
        let ghost c1 = candidates@.subrange(0, i + 1);
        let ghost r0 = r@;
        assert(c1 == c0.push(p));
        assert forall|t: int| 0 <= t < r0.len() implies c1.contains(#[trigger] r0[t]) by {
            let m = choose|m: int| 0 <= m < c0.len() && c0[m] == r0[t];
            assert(c1[m] == r0[t]);
        }
        let mut j: usize = 0;
        while j < r.len() && precedes_exec(r[j], p)
            invariant
                j <= r.len(),
                r@ == r0,
                forall|t: int| 0 <= t < j ==> precedes(r[t], p),
            decreases r.len() - j,
        {
            j = j + 1;
        }
        assert(j < r@.len() ==> !precedes(r@[j as int], p));
        assert(forall|t: int| 0 <= t < j ==> precedes(r0[t], p));
        if j < r.len() && r[j].0 == p.0 && r[j].1 == p.1 {
            assert(r@[j as int] == p);
            assert(r@.contains(c1[i as int]));
            assert forall|m: int| 0 <= m < c1.len() implies r@.contains(#[trigger] c1[m]) || (
            r@.len() == k && forall|t: int| 0 <= t < r@.len() ==> precedes(r@[t], c1[m])) by {
                if m < i {
                    assert(c1[m] == c0[m]);
                }
            }
        } else if j == r.len() && r.len() >= k {
            assert forall|m: int| 0 <= m < c1.len() implies r@.contains(#[trigger] c1[m]) || (
            r@.len() == k && forall|t: int| 0 <= t < r@.len() ==> precedes(r@[t], c1[m])) by {
                if m < i {
                    assert(c1[m] == c0[m]);
                }
            }
        } else {
            r.insert(j, p);
            let ghost r1 = r@;
            assert(r1 == r0.insert(j as int, p));
            assert(strictly_ordered(r1)) by {
                assert forall|a: int, b: int| 0 <= a < b < r1.len() implies precedes(
                    r1[a],
                    r1[b],
                ) by {
                    if b < j {
                        assert(r1[a] == r0[a] && r1[b] == r0[b]);
                    } else if b == j {
                        assert(r1[a] == r0[a] && r1[b] == p);
                    } else if a < j {
                        assert(r1[a] == r0[a]);
                        assert(r1[b] == r0[b - 1]);
                        assert(precedes(r0[a], r0[b - 1]));
                    } else if a == j {
                        assert(r1[a] == p);
                        assert(r1[b] == r0[b - 1]);
                        assert(!precedes(r0[j as int], p) && r0[j as int] != p);
                        assert(precedes(p, r0[j as int]));
                        if b - 1 > j {
                            assert(precedes(r0[j as int], r0[b - 1]));
                        }
                    } else {
                        assert(r1[a] == r0[a - 1]);
                        assert(r1[b] == r0[b - 1]);
                    }
                }
            }
            if r.len() > k {
                r.pop();
            }
            let ghost r2 = r@;
            assert(r2 == r1.subrange(0, r2.len() as int));
            assert(r2.len() > j);
            assert(r2[j as int] == p);
            assert(strictly_ordered(r2));
            assert forall|t: int| 0 <= t < r2.len() implies c1.contains(#[trigger] r2[t]) by {
                if t < j {
                    assert(r2[t] == r0[t]);
                    assert(c1.contains(r0[t]));
                } else if t == j {
                    assert(c1[i as int] == p);
                } else {
                    assert(r2[t] == r0[t - 1]);
                    assert(c1.contains(r0[t - 1]));
                }
            }
            assert forall|m: int| 0 <= m < c1.len() implies r2.contains(#[trigger] c1[m]) || (
            r2.len() == k && forall|t: int| 0 <= t < r2.len() ==> precedes(r2[t], c1[m])) by {
                if m == i {
                    assert(r2[j as int] == c1[m]);
                } else {
                    assert(c1[m] == c0[m]);
                    if r0.contains(c0[m]) {
                        let s = choose|s: int| 0 <= s < r0.len() && r0[s] == c0[m];
                        if s < j {
                            assert(r2[s] == c0[m]);
                        } else if s + 1 < r2.len() {
                            assert(r2[s + 1] == c0[m]);
                        } else {
                            assert(r1[s + 1] == c0[m]);
                            assert(r2.len() == k);
                            assert forall|t: int| 0 <= t < r2.len() implies precedes(
                                r2[t],
                                c1[m],
                            ) by {
                                assert(r2[t] == r1[t]);
                            }
                        }
                    } else {
                        assert(r0.len() == k);
                        assert forall|t: int| 0 <= t < r2.len() implies precedes(
                            r2[t],
                            c1[m],
                        ) by {
                            if t < j {
                                assert(r2[t] == r0[t]);
                            } else if t == j {
                                assert(precedes(r0[j as int], c0[m]));
                            } else {
                                assert(r2[t] == r0[t - 1]);
                            }
                        }
                    }
                }
            }
        }
        i = i + 1;
    }
    assert(candidates@.subrange(0, candidates.len() as int) == candidates@);
    r
}

proof fn lemma_agree_below(c: Seq<Neighbor>, k: nat, r1: Seq<Neighbor>, r2: Seq<Neighbor>, n: int)
    requires
        is_top_k(c, k, r1),
        is_top_k(c, k, r2),
        0 <= n <= r1.len(),
        n <= r2.len(),
    ensures
        forall|i: int| 0 <= i < n ==> r1[i] == r2[i],
    decreases n,
{
    if n > 0 {
        lemma_agree_below(c, k, r1, r2, n - 1);
        let i = n - 1;
        if r1[i] != r2[i] {
            if precedes(r1[i], r2[i]) {
                lemma_not_earlier(c, k, r1, r2, i);
            } else {
                lemma_not_earlier(c, k, r2, r1, i);
            }
        }
    }
}

proof fn lemma_not_earlier(c: Seq<Neighbor>, k: nat, r1: Seq<Neighbor>, r2: Seq<Neighbor>, i: int)
    requires
        is_top_k(c, k, r1),
        is_top_k(c, k, r2),
        0 <= i < r1.len(),
        i < r2.len(),
        forall|t: int| 0 <= t < i ==> r1[t] == r2[t],
    ensures
        !precedes(r1[i], r2[i]),
{
    let x = r1[i];
    assert(c.contains(r1[i]));
    let m = choose|m: int| 0 <= m < c.len() && c[m] == x;
    assert(c[m] == x);
    if precedes(x, r2[i]) {
        if r2.contains(c[m]) {
            let s = choose|s: int| 0 <= s < r2.len() && r2[s] == x;
            if s < i {
                assert(r1[s] == x);
                assert(precedes(r1[s], r1[i]));
            } else if s > i {
                assert(precedes(r2[i], r2[s]));
            }
        } else {
            assert(precedes(r2[i], c[m]));
        }
    }
}

/// Ranking is deterministic: for given candidates and `k` there is exactly
/// one ranked sequence, ties at equal distance being broken by handle.
pub proof fn lemma_top_k_unique(c: Seq<Neighbor>, k: nat, r1: Seq<Neighbor>, r2: Seq<Neighbor>)
    requires
        is_top_k(c, k, r1),
        is_top_k(c, k, r2),
    ensures
        r1 == r2,
{
    lemma_no_longer(c, k, r1, r2);
    lemma_no_longer(c, k, r2, r1);
    lemma_agree_below(c, k, r1, r2, r1.len() as int);
    assert(r1 =~= r2);
}

proof fn lemma_no_longer(c: Seq<Neighbor>, k: nat, r1: Seq<Neighbor>, r2: Seq<Neighbor>)
    requires
        is_top_k(c, k, r1),
        is_top_k(c, k, r2),
    ensures
        r1.len() <= r2.len(),
{
    if r1.len() > r2.len() {
        let n = r2.len() as int;
        lemma_agree_below(c, k, r1, r2, n);
        let x = r1[n];
        assert(c.contains(r1[n]));
        let m = choose|m: int| 0 <= m < c.len() && c[m] == x;
        assert(c[m] == x);
        if r2.contains(c[m]) {
            let s = choose|s: int| 0 <= s < r2.len() && r2[s] == x;
            assert(r1[s] == x);
            assert(precedes(r1[s], r1[n]));
        }
    }
}

/// Ranked results never move away from the query: their distance keys are
/// non-decreasing along the sequence.
pub proof fn lemma_top_k_distances_non_decreasing(c: Seq<Neighbor>, k: nat, r: Seq<Neighbor>)
    requires
        is_top_k(c, k, r),
    ensures
        forall|i: int, j: int| 0 <= i <= j < r.len() ==> r[i].0 <= r[j].0,
{
    assert forall|i: int, j: int| 0 <= i <= j < r.len() implies r[i].0 <= r[j].0 by {
        if i < j {
            assert(precedes(r[i], r[j]));
        }
    }
}

/// Asking for no neighbour gives none; asking for at least as many as there
/// are candidates gives every candidate, each once, and exactly as many as
/// there are when the candidates are distinct: a reordering of them.
pub proof fn lemma_top_k_boundary(c: Seq<Neighbor>, k: nat, r: Seq<Neighbor>)
    requires
        is_top_k(c, k, r),
    ensures
        k == 0 ==> r.len() == 0,
        k >= c.len() ==> forall|i: int| 0 <= i < c.len() ==> r.contains(#[trigger] c[i]),
        k >= c.len() && c.no_duplicates() ==> r.len() == c.len(),
        r.no_duplicates(),
        k >= c.len() ==> r.to_set() == c.to_set(),
{
    assert(r.no_duplicates()) by {
        assert forall|i: int, j: int| 0 <= i < r.len() && 0 <= j < r.len() && i != j implies r[i]
            != r[j] by {
            if i < j {
                assert(precedes(r[i], r[j]));
            } else {
                assert(precedes(r[j], r[i]));
            }
        }
    }
    r.unique_seq_to_set();
    c.lemma_cardinality_of_set();
    assert(r.to_set().subset_of(c.to_set())) by {
        assert forall|x: Neighbor| r.to_set().contains(x) implies c.to_set().contains(x) by {
            let t = choose|t: int| 0 <= t < r.len() && r[t] == x;
            assert(c.contains(r[t]));
        }
    }
    vstd::set_lib::lemma_len_subset(r.to_set(), c.to_set());
    if k >= c.len() {
        assert forall|i: int| 0 <= i < c.len() implies r.contains(#[trigger] c[i]) by {
            if !r.contains(c[i]) {
                assert(r.len() == k);
                assert(r.to_set().subset_of(c.to_set().remove(c[i]))) by {
                    assert forall|x: Neighbor| r.to_set().contains(x) implies c.to_set().remove(
                        c[i],
                    ).contains(x) by {
                        let t = choose|t: int| 0 <= t < r.len() && r[t] == x;
                        assert(c.contains(r[t]));
                    }
                }
                assert(c.to_set().contains(c[i]));
                vstd::set_lib::lemma_len_subset(r.to_set(), c.to_set().remove(c[i]));
            }
        }
        assert(c.to_set().subset_of(r.to_set())) by {
            assert forall|x: Neighbor| c.to_set().contains(x) implies r.to_set().contains(x) by {
                let t = choose|t: int| 0 <= t < c.len() && c[t] == x;
                assert(r.contains(c[t]));
            }
        }
        assert(r.to_set() =~= c.to_set());
        if c.no_duplicates() {
            c.unique_seq_to_set();
            vstd::set_lib::lemma_len_subset(c.to_set(), r.to_set());
        }
    }
}

} // verus!
