use crate::random::draw_below;
use rand::rngs::StdRng;
use vstd::prelude::*;

verus! {

/// `out` holds the elements of `inp` rearranged: position `k` of `out` holds
/// what stood at `perm[k]` in `inp`, and `inv` is the inverse of `perm`.
pub open spec fn permutes<T>(out: Seq<T>, inp: Seq<T>, perm: Seq<int>, inv: Seq<int>) -> bool {
    &&& out.len() == inp.len()
    &&& perm.len() == inp.len()
    &&& inv.len() == inp.len()
    &&& forall|k: int|
        0 <= k < inp.len() ==> {
            &&& 0 <= #[trigger] perm[k] < inp.len()
            &&& inv[perm[k]] == k
            &&& out[k] == inp[perm[k]]
        }
    &&& forall|m: int| 0 <= m < inp.len() ==> 0 <= #[trigger] inv[m] < inp.len() && perm[inv[m]] == m
}

/// `out` is a rearrangement of `inp`.
pub open spec fn is_permutation<T>(out: Seq<T>, inp: Seq<T>) -> bool {
    exists|perm: Seq<int>, inv: Seq<int>| permutes(out, inp, perm, inv)
}

/// `out` is a rearrangement of `inp` that moves every position.
pub open spec fn is_derangement<T>(out: Seq<T>, inp: Seq<T>) -> bool {
    exists|perm: Seq<int>, inv: Seq<int>|
        permutes(out, inp, perm, inv) && forall|k: int| 0 <= k < inp.len() ==> #[trigger] perm[k] != k
}

/// Draws that drive a derangement of `n` positions: the draw at index `i`
/// (for `i >= 1`) names the position below `i` that `i` is swapped with.
pub open spec fn valid_picks(picks: Seq<usize>, n: int) -> bool {
    picks.len() == n && forall|i: int| 1 <= i < n ==> #[trigger] picks[i] < i
}

/// The sequence `s` with the elements at `i` and `j` exchanged.
pub open spec fn swapped<T>(s: Seq<T>, i: int, j: int) -> Seq<T> {
    s.update(i, s[j]).update(j, s[i])
}

/// What the backward pass does to `s` from index `i` down to 1.
pub open spec fn swap_down<T>(s: Seq<T>, picks: Seq<usize>, i: int) -> Seq<T>
    decreases i,
{
    if i < 1 {
        s
    } else {
        swap_down(swapped(s, i, picks[i] as int), picks, i - 1)
    }
}

/// The result of deranging `s` with the given draws.
pub open spec fn deranged<T>(s: Seq<T>, picks: Seq<usize>) -> Seq<T> {
    swap_down(s, picks, s.len() - 1)
}

/// A derangement of a sequence without repeated elements changes the element
/// at every index.
pub proof fn lemma_derangement_moves_every_element<T>(out: Seq<T>, inp: Seq<T>)
    requires
        is_derangement(out, inp),
        inp.no_duplicates(),
    ensures
        forall|k: int| 0 <= k < inp.len() ==> out[k] != inp[k],
{
    let (perm, inv) = choose|perm: Seq<int>, inv: Seq<int>|
        permutes(out, inp, perm, inv) && forall|k: int| 0 <= k < inp.len() ==> #[trigger] perm[k] != k;
    assert forall|k: int| 0 <= k < inp.len() implies out[k] != inp[k] by {
        assert(out[k] == inp[perm[k]]);
        assert(perm[k] != k);
    }
}

/// Rearranges `data` by one backward pass: for each index `i` from the last
/// down to 1, swaps positions `i` and `picks[i]`. Since every pick lies below
/// its index, no element ends where it started.
pub fn derange<T: Copy>(data: &mut [T], picks: &[usize])
    requires
        valid_picks(picks@, old(data)@.len() as int),
    ensures
        final(data)@ == deranged(old(data)@, picks@),
        is_permutation(final(data)@, old(data)@),
        old(data)@.len() >= 2 ==> is_derangement(final(data)@, old(data)@),
        old(data)@.len() < 2 ==> final(data)@ == old(data)@,
{
    let n = data.len();
    let ghost orig = data@;
    let ghost mut perm = Seq::new(n as nat, |k: int| k);
    let ghost mut inv = Seq::new(n as nat, |k: int| k);
    assert(permutes(data@, orig, perm, inv));
    let mut i: usize = n;
    while i > 1
        invariant
            i <= n,
            n == orig.len(),
            n < 2 ==> i == n,
            data@.len() == n,
            valid_picks(picks@, n as int),
            permutes(data@, orig, perm, inv),
            forall|p: int| 0 <= p < i ==> #[trigger] perm[p] == p || perm[p] >= i,
            forall|p: int| i <= p < n ==> #[trigger] perm[p] != p,
            i == 1 && n >= 2 ==> perm[0] != 0,
            n < 2 ==> data@ == orig,
            swap_down(data@, picks@, i - 1) == deranged(orig, picks@),
        decreases i,
    {
        let t = i - 1;
        let j = picks[t];
        let a = data[t];
        let b = data[j];
        let ghost before = data@;
        data[t] = b;
        data[j] = a;
        assert(data@ == swapped(before, t as int, j as int));
        proof {
            let pt = perm[t as int];
            let pj = perm[j as int];
            perm = perm.update(t as int, pj).update(j as int, pt);
            inv = inv.update(pt, j as int).update(pj, t as int);
            assert(permutes(data@, orig, perm, inv));
        }
        i = t;
    }
    proof {
        if n >= 2 {
            assert(forall|k: int| 0 <= k < orig.len() ==> #[trigger] perm[k] != k);
        }
    }
}

/// Draws for a derangement of `n` positions: for each index `i` from the
/// last down to 1, a position drawn uniformly below `i`.
pub(crate) fn draw_picks(rng: &mut StdRng, n: usize) -> (r: Vec<usize>)
    ensures
        valid_picks(r@, n as int),
        n < 2 ==> *final(rng) == *old(rng),
{
    let mut picks: Vec<usize> = Vec::new();
    let mut k: usize = 0;
    while k < n
        invariant
            k <= n,
            picks@.len() == k,
            forall|p: int| 0 <= p < k ==> #[trigger] picks@[p] == 0,
        decreases n - k,
    {
        picks.push(0);
        k = k + 1;
    }
    let mut i: usize = n;
    while i > 1
        invariant
            i <= n,
            picks@.len() == n,
            forall|p: int| 1 <= p < n ==> #[trigger] picks@[p] < p || (p < i && picks@[p] == 0),
            n < 2 ==> *rng == *old(rng),
        decreases i,
    {
        let t = i - 1;
        let j = draw_below(rng, t);
        picks[t] = j;
        i = t;
    }
    picks
}

/// Shuffles `data` in place so that no element stays at its position: for
/// each index `i` from the last down to 1 it swaps `i` with a position drawn
/// uniformly below `i`. The result is not uniform over all derangements.
pub fn shuffle<T: Copy>(data: &mut [T], rng: &mut StdRng)
    ensures
        is_permutation(final(data)@, old(data)@),
        old(data)@.len() >= 2 ==> is_derangement(final(data)@, old(data)@),
        old(data)@.len() < 2 ==> final(data)@ == old(data)@ && *final(rng) == *old(rng),
{
    let picks = draw_picks(rng, data.len());
    derange(data, picks.as_slice());
}

} // verus!
