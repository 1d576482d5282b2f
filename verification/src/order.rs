//! Stable ordering of items by an integer key.
use vstd::prelude::*;

verus! {

/// `p` lists each of the indices `0..n` exactly once.
pub open spec fn is_permutation(p: Seq<usize>, n: nat) -> bool {
    &&& p.len() == n
    &&& forall|i: int| 0 <= i < p.len() ==> (#[trigger] p[i]) < n
    &&& forall|i: int, j: int| 0 <= i < j < p.len() ==> p[i] != p[j]
}

/// Item `a` comes before item `b`: a smaller key, or the same key and an
/// earlier position.
pub open spec fn comes_before(keys: Seq<i128>, a: usize, b: usize) -> bool {
    keys[a as int] < keys[b as int] || (keys[a as int] == keys[b as int] && a < b)
}

/// `p` lists items by ascending key, equal keys in their input order.
pub open spec fn stably_ordered(keys: Seq<i128>, p: Seq<usize>) -> bool {
    forall|i: int, j: int| 0 <= i < j < p.len() ==> comes_before(keys, #[trigger] p[i], #[trigger] p[j])
}

/// The positions of `keys` in ascending key order; items with equal keys keep
/// their relative input order (a stable sort).
pub fn stable_order(keys: &Vec<i128>) -> (p: Vec<usize>)
    ensures
        is_permutation(p@, keys@.len()),
        stably_ordered(keys@, p@),
{
    let mut p: Vec<usize> = Vec::new();
    let n = keys.len();
    let mut t: usize = 0;
    while t < n
        invariant
            n == keys@.len(),
            t <= n,
            is_permutation(p@, t as nat),
            stably_ordered(keys@, p@),
        decreases n - t,
    {
        let k = keys[t];
        let mut pos: usize = 0;
        while pos < p.len() && keys[p[pos]] <= k
            invariant
                n == keys@.len(),
                t < n,
                pos <= p@.len(),
                is_permutation(p@, t as nat),
                forall|m: int| 0 <= m < pos ==> keys@[#[trigger] p@[m] as int] <= k,
            decreases p@.len() - pos,
        {
            pos = pos + 1;
        }
        let ghost old_p = p@;
        assert forall|m: int| pos <= m < old_p.len() implies keys@[#[trigger] old_p[m] as int] > k by {
            if pos < old_p.len() {
                assert(keys@[old_p[pos as int] as int] > k);
                if m > pos {
                    assert(comes_before(keys@, old_p[pos as int], old_p[m]));
                }
            }
        }
        p.insert(pos, t);
        assert(p@ == old_p.insert(pos as int, t));
        assert forall|i: int, j: int| 0 <= i < j < p@.len() implies comes_before(
            keys@,
            #[trigger] p@[i],
            #[trigger] p@[j],
        ) by {
            if j < pos {
                assert(comes_before(keys@, old_p[i], old_p[j]));
            } else if j == pos {
                assert(p@[i] == old_p[i]);
            } else if i < pos {
                assert(p@[j] == old_p[j - 1]);
            } else if i == pos {
                assert(p@[j] == old_p[j - 1]);
            } else {
                assert(comes_before(keys@, old_p[i - 1], old_p[j - 1]));
            }
        }
        assert forall|i: int, j: int| 0 <= i < j < p@.len() implies p@[i] != p@[j] by {
            if i < pos && j > pos {
                assert(p@[j] == old_p[j - 1]);
            } else if i > pos {
                assert(old_p[i - 1] != old_p[j - 1]);
            } else if j < pos {
                assert(old_p[i] != old_p[j]);
            } else if i == pos {
                assert(p@[j] == old_p[j - 1]);
                assert(old_p[j - 1] < t);
            } else {
                assert(old_p[i] < t);
            }
        }
        t = t + 1;
    }
    p
}

} // verus!
