//! Stable ordering by an integer key, as `sort_by_key` orders: ascending key,
//! ties kept in their input order.

use vstd::prelude::*;

verus! {

/// Position `a` comes before position `b`: smaller key, or the same key and
/// earlier in the input.
pub open spec fn key_before(keys: Seq<i64>, a: int, b: int) -> bool {
    keys[a] < keys[b] || (keys[a] == keys[b] && a < b)
}

/// `perm` lists every position of `keys` exactly once, in stable ascending
/// key order. At most one such listing exists.
pub open spec fn is_stable_order(keys: Seq<i64>, perm: Seq<usize>) -> bool {
    &&& perm.len() == keys.len()
    &&& forall|p: int| 0 <= p < perm.len() ==> #[trigger] perm[p] < keys.len()
    &&& forall|p: int, q: int| 0 <= p < q < perm.len() ==> key_before(keys, #[trigger] perm[p] as int, #[trigger] perm[q] as int)
}

/// `run` is strictly ascending in stable key order.
pub open spec fn sorted_run(keys: Seq<i64>, run: Seq<usize>) -> bool {
    forall|p: int, q: int| 0 <= p < q < run.len() ==> key_before(keys, #[trigger] run[p] as int, #[trigger] run[q] as int)
}

/// Every entry of `run` is a position in `lo..hi`.
pub open spec fn within(run: Seq<usize>, lo: int, hi: int) -> bool {
    forall|p: int| 0 <= p < run.len() ==> lo <= #[trigger] run[p] < hi
}

/// Merges the stable listings of `lo..mid` and `mid..hi`; on equal keys the
/// earlier position, which is in `a`, comes first.
fn merge_runs(keys: &Vec<i64>, a: Vec<usize>, b: Vec<usize>, lo: usize, mid: usize, hi: usize) -> (r: Vec<usize>)
    requires
        lo <= mid <= hi <= keys@.len(),
        sorted_run(keys@, a@),
        sorted_run(keys@, b@),
        within(a@, lo as int, mid as int),
        within(b@, mid as int, hi as int),
    ensures
        sorted_run(keys@, r@),
        within(r@, lo as int, hi as int),
        r@.len() == a@.len() + b@.len(),
{
    let mut out: Vec<usize> = Vec::new();
    let mut i: usize = 0;
    let mut j: usize = 0;
    while i < a.len() || j < b.len()
        invariant
            lo <= mid <= hi <= keys@.len(),
            sorted_run(keys@, a@),
            sorted_run(keys@, b@),
            within(a@, lo as int, mid as int),
            within(b@, mid as int, hi as int),
            i <= a@.len(),
            j <= b@.len(),
            out@.len() == i + j,
            sorted_run(keys@, out@),
            within(out@, lo as int, hi as int),
            forall|p: int| 0 <= p < out@.len() ==> (i < a@.len() ==> key_before(keys@, #[trigger] out@[p] as int, a@[i as int] as int)),
            forall|p: int| 0 <= p < out@.len() ==> (j < b@.len() ==> key_before(keys@, #[trigger] out@[p] as int, b@[j as int] as int)),
        decreases a@.len() + b@.len() - i - j,
    {
        let take_a = if i < a.len() && j < b.len() {
            keys[a[i]] <= keys[b[j]]
        } else {
            i < a.len()
        };
        let ghost before = out@;
        if take_a {
            let x = a[i];
            out.push(x);
            proof {
                assert(out@[out@.len() - 1] == x);
                assert forall|p: int| 0 <= p < out@.len() implies (i + 1 < a@.len() ==> key_before(keys@, #[trigger] out@[p] as int, a@[i + 1] as int)) by {
                    if i + 1 < a@.len() {
                        assert(key_before(keys@, a@[i as int] as int, a@[i + 1] as int));
                        if p < before.len() {
                            assert(out@[p] == before[p]);
                        }
                    }
                }
                assert forall|p: int| 0 <= p < out@.len() implies (j < b@.len() ==> key_before(keys@, #[trigger] out@[p] as int, b@[j as int] as int)) by {
                    if p < before.len() {
                        assert(out@[p] == before[p]);
                    }
                }
                assert forall|p: int, q: int| 0 <= p < q < out@.len() implies key_before(keys@, #[trigger] out@[p] as int, #[trigger] out@[q] as int) by {
                    if q < before.len() {
                        assert(out@[p] == before[p] && out@[q] == before[q]);
                    } else {
                        assert(out@[p] == before[p]);
                    }
                }
            }
            i = i + 1;
        } else {
            let x = b[j];
            out.push(x);
            proof {
                assert(out@[out@.len() - 1] == x);
                assert forall|p: int| 0 <= p < out@.len() implies (i < a@.len() ==> key_before(keys@, #[trigger] out@[p] as int, a@[i as int] as int)) by {
                    if p < before.len() {
                        assert(out@[p] == before[p]);
                    }
                }
                assert forall|p: int| 0 <= p < out@.len() implies (j + 1 < b@.len() ==> key_before(keys@, #[trigger] out@[p] as int, b@[j + 1] as int)) by {
                    if j + 1 < b@.len() {
                        assert(key_before(keys@, b@[j as int] as int, b@[j + 1] as int));
                        if p < before.len() {
                            assert(out@[p] == before[p]);
                        }
                    }
                }
                assert forall|p: int, q: int| 0 <= p < q < out@.len() implies key_before(keys@, #[trigger] out@[p] as int, #[trigger] out@[q] as int) by {
                    if q < before.len() {
                        assert(out@[p] == before[p] && out@[q] == before[q]);
                    } else {
                        assert(out@[p] == before[p]);
                    }
                }
            }
            j = j + 1;
        }
    }
    out
}

/// The stable listing of the positions `lo..hi`.
fn sort_range(keys: &Vec<i64>, lo: usize, hi: usize) -> (r: Vec<usize>)
    requires
        lo <= hi <= keys@.len(),
    ensures
        sorted_run(keys@, r@),
        within(r@, lo as int, hi as int),
        r@.len() == hi - lo,
    decreases hi - lo,
{
    if hi - lo == 0 {
        return Vec::new();
    }
    if hi - lo == 1 {
        let mut one: Vec<usize> = Vec::new();
        one.push(lo);
        return one;
    }
    let mid = lo + (hi - lo) / 2;
    let a = sort_range(keys, lo, mid);
    let b = sort_range(keys, mid, hi);
    merge_runs(keys, a, b, lo, mid, hi)
}

/// The positions of `keys` in stable ascending key order.
pub fn stable_order(keys: &Vec<i64>) -> (r: Vec<usize>)
    ensures
        is_stable_order(keys@, r@),
{
    sort_range(keys, 0, keys.len())
}


proof fn lemma_order_covers(keys: Seq<i64>, perm: Seq<usize>, x: int)
    requires
        is_stable_order(keys, perm),
        0 <= x < keys.len(),
    ensures
        exists|m: int| 0 <= m < perm.len() && perm[m] as int == x,
{
    let ip = perm.map_values(|v: usize| v as int);
    assert(ip.no_duplicates()) by {
        assert forall|i: int, j: int| 0 <= i < ip.len() && 0 <= j < ip.len() && i != j implies ip[i] != ip[j] by {
            if i < j {
                assert(key_before(keys, perm[i] as int, perm[j] as int));
            } else {
                assert(key_before(keys, perm[j] as int, perm[i] as int));
            }
        }
    }
    ip.unique_seq_to_set();
    let r = vstd::set_lib::set_int_range(0, keys.len() as int);
    vstd::set_lib::lemma_int_range(0, keys.len() as int);
    assert(ip.to_set().subset_of(r)) by {
        assert forall|v: int| ip.to_set().contains(v) implies r.contains(v) by {
            let i = choose|i: int| 0 <= i < ip.len() && ip[i] == v;
            assert(perm[i] < keys.len());
        }
    }
    vstd::set_lib::lemma_subset_equality(ip.to_set(), r);
    assert(r.contains(x));
    assert(ip.to_set().contains(x));
    let m = choose|m: int| 0 <= m < ip.len() && ip[m] == x;
    assert(perm[m] as int == x);
}

/// A stable order is unique: any two listings that both qualify are equal,
/// so the contracts that speak of "some" stable order fix the result.
pub proof fn lemma_stable_order_unique(keys: Seq<i64>, p: Seq<usize>, q: Seq<usize>)
    requires
        is_stable_order(keys, p),
        is_stable_order(keys, q),
    ensures
        p == q,
{
    assert forall|k: int| 0 <= k < p.len() implies #[trigger] p[k] == q[k] by {
        lemma_same_at(keys, p, q, k);
    }
    assert(p =~= q);
}

proof fn lemma_same_at(keys: Seq<i64>, p: Seq<usize>, q: Seq<usize>, k: int)
    requires
        is_stable_order(keys, p),
        is_stable_order(keys, q),
        0 <= k < p.len(),
    ensures
        p[k] == q[k],
    decreases k,
{
    assert forall|j: int| 0 <= j < k implies #[trigger] p[j] == q[j] by {
        lemma_same_at(keys, p, q, j);
    }
    lemma_order_covers(keys, q, p[k] as int);
    let m = choose|m: int| 0 <= m < q.len() && q[m] as int == p[k] as int;
    lemma_order_covers(keys, p, q[k] as int);
    let m2 = choose|m: int| 0 <= m < p.len() && p[m] as int == q[k] as int;
    if m < k {
        assert(p[m] == q[m]);
        assert(key_before(keys, p[m] as int, p[k] as int));
    }
    if m2 < k {
        assert(p[m2] == q[m2]);
        assert(key_before(keys, q[m2] as int, q[k] as int));
    }
    if m > k && m2 > k {
        assert(key_before(keys, q[k] as int, q[m] as int));
        assert(key_before(keys, p[k] as int, p[m2] as int));
    }
}

} // verus!
