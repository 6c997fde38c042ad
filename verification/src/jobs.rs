//! Collecting the output of a batch of jobs that finish in arbitrary
//! order: each worker hands back `(slot, value)` pairs, and the batch's
//! output vector holds every value at its own slot. Spawning the
//! workers and carrying the pairs between threads happen outside.

use vstd::prelude::*;

verus! {

/// The value that ends up in slot `i` after the pairs are applied in
/// order: the last value written for `i`, or the fill value if none
/// was.
pub open spec fn last_result_for<T>(pairs: Seq<(usize, T)>, i: int, fill: T) -> T
    decreases pairs.len(),
{
    if pairs.len() == 0 {
        fill
    } else if pairs.last().0 as int == i {
        pairs.last().1
    } else {
        last_result_for(pairs.drop_last(), i, fill)
    }
}

/// Builds the output of a batch of `n` slots from its finished jobs'
/// `(slot, value)` pairs, whatever order they finished in: every slot
/// holds the last value delivered for it, and a slot nothing was
/// delivered for holds the fill value. A pair naming a slot beyond
/// the batch is ignored.
pub fn assemble_results<T: Copy>(results: &Vec<(usize, T)>, n: usize, fill: T) -> (out: Vec<T>)
    ensures
        out@.len() == n,
        forall|i: int| 0 <= i < n ==> out@[i] == last_result_for(results@, i, fill),
{
    let mut out: Vec<T> = Vec::new();
    let mut k: usize = 0;
    while k < n
        invariant
            k <= n,
            out@.len() == k,
            forall|i: int| 0 <= i < k as int ==> out@[i] == fill,
        decreases n - k,
    {
        out.push(fill);
        k = k + 1;
    }
    proof {
        assert(forall|i: int|
            0 <= i < n ==> out@[i] == last_result_for(results@.take(0), i, fill));
    }
    let mut j: usize = 0;
    while j < results.len()
        invariant
            out@.len() == n,
            j <= results@.len(),
            forall|i: int| 0 <= i < n ==> out@[i] == last_result_for(results@.take(j as int), i, fill),
        decreases results@.len() - j,
    {
        proof {
            assert(results@.take(j + 1).drop_last() =~= results@.take(j as int));
            assert(results@.take(j + 1).last() == results@[j as int]);
        }
        let idx = results[j].0;
        let v = results[j].1;
        if idx < n {
            out.set(idx, v);
        }
        j = j + 1;
    }
    proof {
        assert(results@.take(results@.len() as int) =~= results@);
    }
    out
}

} // verus!
