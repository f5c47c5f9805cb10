use vstd::prelude::*;
use crate::address::AddrView;
use crate::candidates::{RelayCandidateSet, holds_key, keys_unique};

verus! {

/// The members of `c` whose probe succeeded (`reachable` at the same
/// position), in their order.
pub open spec fn kept(c: Seq<AddrView>, reachable: Seq<bool>) -> Seq<AddrView>
    decreases c.len(),
{
    if c.len() == 0 || reachable.len() < c.len() {
        Seq::empty()
    } else {
        let prev = kept(c.drop_last(), reachable.take(c.len() - 1));
        if reachable[c.len() - 1] {
            prev.push(c.last())
        } else {
            prev
        }
    }
}

/// The filter keeps no relay that `c` does not hold.
proof fn lemma_kept_from(c: Seq<AddrView>, reachable: Seq<bool>)
    requires
        reachable.len() == c.len(),
    ensures
        forall|key: Seq<char>| #[trigger] holds_key(kept(c, reachable), key) ==> holds_key(c, key),
    decreases c.len(),
{
    if c.len() > 0 {
        let dl = c.drop_last();
        let rt = reachable.take(c.len() - 1);
        lemma_kept_from(dl, rt);
        let prev = kept(dl, rt);
        let k = kept(c, reachable);
        assert forall|key: Seq<char>| #[trigger] holds_key(k, key) implies holds_key(c, key) by {
            let i = choose|i: int| 0 <= i < k.len() && #[trigger] k[i].0 == key;
            if i < prev.len() {
                assert(k[i] == prev[i]);
                assert(holds_key(prev, key));
                let j = choose|j: int| 0 <= j < dl.len() && #[trigger] dl[j].0 == key;
                assert(c[j].0 == key);
            } else {
                assert(c[c.len() - 1].0 == key);
            }
        }
    }
}

/// Keeps the candidates whose liveness probe succeeded, in their order;
/// `reachable[i]` is the probe's result for the candidate at position `i`.
/// None is kept otherwise, and the result may be empty.
pub fn filter_live(candidates: &RelayCandidateSet, reachable: &Vec<bool>) -> (r: RelayCandidateSet)
    requires
        candidates.wf(),
        reachable@.len() == candidates@.len(),
    ensures
        r.wf(),
        r@ == kept(candidates@, reachable@),
{
    let mut r = RelayCandidateSet::new();
    let mut i: usize = 0;
    while i < candidates.len()
        invariant
            0 <= i <= candidates@.len(),
            reachable@.len() == candidates@.len(),
            keys_unique(candidates@),
            r.wf(),
            r@ == kept(candidates@.take(i as int), reachable@.take(i as int)),
        decreases candidates@.len() - i,
    {
        let ghost c = candidates@.take(i + 1);
        let ghost ok = reachable@.take(i + 1);
        assert(c.drop_last() =~= candidates@.take(i as int));
        assert(ok.take(i as int) =~= reachable@.take(i as int));
        if reachable[i] {
            let a = candidates.get(i).clone();
            proof {
                lemma_kept_from(candidates@.take(i as int), reachable@.take(i as int));
                let pre = candidates@.take(i as int);
                if holds_key(r@, a@.0) {
                    assert(holds_key(pre, a@.0));
                    let j = choose|j: int| 0 <= j < pre.len() && #[trigger] pre[j].0 == a@.0;
                    assert(candidates@[j].0 == candidates@[i as int].0);
                }
            }
            r.add(a);
        }
        i = i + 1;
    }
    assert(candidates@.take(candidates@.len() as int) =~= candidates@);
    assert(reachable@.take(reachable@.len() as int) =~= reachable@);
    r
}

} // verus!
