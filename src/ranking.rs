//! Ordering of results: higher score first, and among equal scores the more
//! recently modified first.

use vstd::prelude::*;
use crate::project::Timestamp;

verus! {

/// `a` comes strictly before `b` in a ranking.
pub open spec fn outranks(a: (usize, Timestamp), b: (usize, Timestamp)) -> bool {
    a.0 > b.0 || (a.0 == b.0 && b.1.spec_before(a.1))
}

/// The positions in `r` list their keys from the first in rank to the last.
pub open spec fn ranked(keys: Seq<(usize, Timestamp)>, r: Seq<usize>) -> bool {
    forall|i: int, j: int|
        0 <= i < j < r.len() ==> !outranks(#[trigger] keys[r[j] as int], #[trigger] keys[r[i] as int])
}

/// The candidates `cands` (positions into `keys`), reordered by rank. Candidates
/// that tie keep their relative order.
pub fn rank_desc(keys: &Vec<(usize, Timestamp)>, cands: &Vec<usize>) -> (r: Vec<usize>)
    requires
        cands@.no_duplicates(),
        forall|i: int| 0 <= i < cands@.len() ==> cands@[i] < keys@.len(),
    ensures
        r@.len() == cands@.len(),
        r@.no_duplicates(),
        forall|x: usize| r@.contains(x) <==> cands@.contains(x),
        ranked(keys@, r@),
{
    let mut r: Vec<usize> = Vec::new();
    let mut k: usize = 0;
    while k < cands.len()
        invariant
            k <= cands@.len(),
            r@.len() == k,
            r@.no_duplicates(),
            forall|x: usize| r@.contains(x) <==> cands@.subrange(0, k as int).contains(x),
            forall|i: int| 0 <= i < r@.len() ==> r@[i] < keys@.len(),
            ranked(keys@, r@),
            cands@.no_duplicates(),
            forall|i: int| 0 <= i < cands@.len() ==> cands@[i] < keys@.len(),
        decreases cands@.len() - k,
    {
        let x = cands[k];
        let kx = keys[x];
        let mut p: usize = 0;
        loop
            invariant
                p <= r@.len(),
                kx == keys@[x as int],
                forall|i: int| 0 <= i < r@.len() ==> r@[i] < keys@.len(),
                forall|s: int| 0 <= s < p ==> !outranks(kx, keys@[r@[s] as int]),
            ensures
                p <= r@.len(),
                forall|s: int| 0 <= s < p ==> !outranks(kx, keys@[r@[s] as int]),
                p < r@.len() ==> outranks(kx, keys@[r@[p as int] as int]),
            decreases r@.len() - p,
        {
            if p == r.len() {
                break;
            }
            let kp = keys[r[p]];
            if kx.0 > kp.0 || (kx.0 == kp.0 && kp.1.is_before(&kx.1)) {
                break;
            }
            p += 1;
        }
        let ghost old_r = r@;
        proof {
            old_r.insert_ensures(p as int, x);
            assert(!old_r.contains(x)) by {
                if old_r.contains(x) {
                    let w = choose|w: int| 0 <= w < old_r.len() && old_r[w] == x;
                    assert(cands@.subrange(0, k as int).contains(x));
                    let v = choose|v: int| 0 <= v < k && cands@.subrange(0, k as int)[v] == x;
                    assert(cands@[v] == cands@[k as int]);
                }
            }
        }
        r.insert(p, x);
        proof {
            let nr = r@;
            let pre = cands@.subrange(0, k + 1);
            assert forall|i: int, j: int| 0 <= i < j < nr.len() implies !outranks(
                #[trigger] keys@[nr[j] as int],
                #[trigger] keys@[nr[i] as int],
            ) by {
                if j < p {
                } else if j == p {
                } else if i < p {
                    assert(nr[j] == old_r[j - 1]);
                } else if i == p {
                    assert(nr[j] == old_r[j - 1]);
                    assert(outranks(kx, keys@[old_r[p as int] as int]));
                    if j - 1 > p {
                        assert(!outranks(keys@[old_r[j - 1] as int], keys@[old_r[p as int] as int]));
                    }
                } else {
                    assert(nr[j] == old_r[j - 1]);
                    assert(nr[i] == old_r[i - 1]);
                }
            }
            assert forall|a: int, b: int| 0 <= a < b < nr.len() implies nr[a] != nr[b] by {
                if b < p {
                } else if b == p {
                    assert(old_r.contains(nr[a]));
                } else if a < p {
                    assert(nr[b] == old_r[b - 1]);
                } else if a == p {
                    assert(nr[b] == old_r[b - 1]);
                    assert(old_r.contains(nr[b]));
                } else {
                    assert(nr[b] == old_r[b - 1]);
                    assert(nr[a] == old_r[a - 1]);
                }
            }
            assert forall|y: usize| nr.contains(y) <==> pre.contains(y) by {
                if nr.contains(y) {
                    let w = choose|w: int| 0 <= w < nr.len() && nr[w] == y;
                    if w < p {
                        assert(old_r.contains(y));
                    } else if w > p {
                        assert(nr[w] == old_r[w - 1]);
                        assert(old_r.contains(y));
                    }
                    if y != x {
                        assert(cands@.subrange(0, k as int).contains(y));
                        let v = choose|v: int| 0 <= v < k && cands@.subrange(0, k as int)[v] == y;
                        assert(pre[v] == y);
                    } else {
                        assert(pre[k as int] == y);
                    }
                }
                if pre.contains(y) {
                    let v = choose|v: int| 0 <= v < k + 1 && pre[v] == y;
                    if v < k {
                        assert(cands@.subrange(0, k as int)[v] == y);
                        assert(old_r.contains(y));
                        let w = choose|w: int| 0 <= w < old_r.len() && old_r[w] == y;
                        if w < p {
                            assert(nr[w] == y);
                        } else {
                            assert(nr[w + 1] == y);
                        }
                    } else {
                        assert(nr[p as int] == y);
                    }
                }
            }
        }
        k += 1;
    }
    assert(cands@.subrange(0, k as int) =~= cands@);
    r
}

} // verus!
