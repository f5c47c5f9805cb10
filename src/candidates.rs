use vstd::prelude::*;
use crate::address::{AddrView, RelayAddress};

verus! {

/// Whether some member of `s` has the normalized form `key`.
pub open spec fn holds_key(s: Seq<AddrView>, key: Seq<char>) -> bool {
    exists|i: int| 0 <= i < s.len() && #[trigger] s[i].0 == key
}

/// No two members of `s` share a normalized form.
pub open spec fn keys_unique(s: Seq<AddrView>) -> bool {
    forall|i: int, j: int|
        0 <= i < s.len() && 0 <= j < s.len() && i != j ==> #[trigger] s[i].0 != #[trigger] s[j].0
}

/// `s` after adding `a`: unchanged when `a` is already present, else `a` at the end.
pub open spec fn with_added(s: Seq<AddrView>, a: AddrView) -> Seq<AddrView> {
    if holds_key(s, a.0) {
        s
    } else {
        s.push(a)
    }
}

/// `s` after adding, in order, every member of `other` that `excluding` does
/// not hold.
pub open spec fn merged(s: Seq<AddrView>, other: Seq<AddrView>, excluding: Seq<AddrView>) -> Seq<
    AddrView,
>
    decreases other.len(),
{
    if other.len() == 0 {
        s
    } else {
        let prev = merged(s, other.drop_last(), excluding);
        if holds_key(excluding, other.last().0) {
            prev
        } else {
            with_added(prev, other.last())
        }
    }
}

/// `s` after adding every member of `xs` in order.
pub open spec fn inserted_all(s: Seq<AddrView>, xs: Seq<AddrView>) -> Seq<AddrView> {
    merged(s, xs, Seq::empty())
}

/// An ordered collection of relay addresses with no two of the same relay;
/// the first address seen for a relay keeps its place.
pub struct RelayCandidateSet {
    items: Vec<RelayAddress>,
}

impl View for RelayCandidateSet {
    type V = Seq<AddrView>;

    closed spec fn view(&self) -> Seq<AddrView> {
        self.items@.map_values(|a: RelayAddress| a@)
    }
}

impl RelayCandidateSet {
    /// The set's invariant: no relay appears twice.
    pub open spec fn wf(&self) -> bool {
        keys_unique(self@)
    }

    /// An empty set.
    pub fn new() -> (r: RelayCandidateSet)
        ensures
            r.wf(),
            r@ == Seq::<AddrView>::empty(),
    {
        let r = RelayCandidateSet { items: Vec::new() };
        assert(r@ =~= Seq::<AddrView>::empty());
        r
    }

    /// The number of addresses held.
    pub fn len(&self) -> (r: usize)
        ensures
            r == self@.len(),
    {
        self.items.len()
    }

    /// Whether no address is held.
    pub fn is_empty(&self) -> (r: bool)
        ensures
            r == (self@.len() == 0),
    {
        self.items.len() == 0
    }

    /// The address at position `i`.
    pub fn get(&self, i: usize) -> (r: &RelayAddress)
        requires
            i < self@.len(),
        ensures
            r@ == self@[i as int],
    {
        &self.items[i]
    }

    /// The addresses held, in order.
    pub fn into_vec(self) -> (r: Vec<RelayAddress>)
        ensures
            r@.map_values(|a: RelayAddress| a@) == self@,
    {
        self.items
    }

    /// Whether the set holds an address of the same relay as `a`.
    pub fn contains(&self, a: &RelayAddress) -> (r: bool)
        ensures
            r == holds_key(self@, a@.0),
    {
        let mut i: usize = 0;
        while i < self.items.len()
            invariant
                0 <= i <= self.items.len(),
                forall|j: int| 0 <= j < i ==> #[trigger] self@[j].0 != a@.0,
            decreases self.items.len() - i,
        {
            if self.items[i].same_relay(a) {
                assert(self@[i as int].0 == a@.0);
                return true;
            }
            i = i + 1;
        }
        false
    }

    /// Adds `a` unless an address of the same relay is already held; no
    /// member moves.
    pub fn add(&mut self, a: RelayAddress)
        requires
            old(self).wf(),
        ensures
            final(self).wf(),
            final(self)@ == with_added(old(self)@, a@),
    {
        if !self.contains(&a) {
            let ghost before = self@;
            self.items.push(a);
            assert(self@ =~= before.push(a@));
            assert forall|i: int, j: int|
                0 <= i < self@.len() && 0 <= j < self@.len() && i != j implies #[trigger] self@[i].0
                != #[trigger] self@[j].0 by {
                if i == before.len() {
                    assert(!(before[j].0 == a@.0));
                } else if j == before.len() {
                    assert(!(before[i].0 == a@.0));
                }
            }
        }
    }

    /// Appends, in their order, the members of `other` that neither this set
    /// nor `excluding` holds.
    pub fn merge(&mut self, other: &RelayCandidateSet, excluding: &RelayCandidateSet)
        requires
            old(self).wf(),
        ensures
            final(self).wf(),
            final(self)@ == merged(old(self)@, other@, excluding@),
    {
        let ghost start = self@;
        let mut i: usize = 0;
        while i < other.items.len()
            invariant
                0 <= i <= other@.len(),
                self.wf(),
                self@ == merged(start, other@.take(i as int), excluding@),
            decreases other@.len() - i,
        {
            let a = other.items[i].clone();
            assert(other@.take(i + 1).drop_last() =~= other@.take(i as int));
            if !excluding.contains(&a) {
                self.add(a);
            }
            i = i + 1;
        }
        assert(other@.take(other@.len() as int) =~= other@);
    }

    /// A set of the given addresses in order, later duplicates dropped.
    pub fn from_addresses(v: Vec<RelayAddress>) -> (r: RelayCandidateSet)
        ensures
            r.wf(),
            r@ == inserted_all(Seq::empty(), v@.map_values(|a: RelayAddress| a@)),
    {
        let ghost vs = v@.map_values(|a: RelayAddress| a@);
        let mut r = RelayCandidateSet::new();
        let mut i: usize = 0;
        while i < v.len()
            invariant
                0 <= i <= v.len(),
                vs == v@.map_values(|a: RelayAddress| a@),
                r.wf(),
                r@ == inserted_all(Seq::empty(), vs.take(i as int)),
            decreases v.len() - i,
        {
            let a = v[i].clone();
            assert(vs.take(i + 1).drop_last() =~= vs.take(i as int));
            proof {
                lemma_empty_holds_nothing(vs[i as int].0);
            }
            r.add(a);
            i = i + 1;
        }
        assert(vs.take(v.len() as int) =~= vs);
        r
    }
}

/// Whether `p` is a prefix of `s`: `s` keeps every member of `p` in place.
pub open spec fn is_prefix(p: Seq<AddrView>, s: Seq<AddrView>) -> bool {
    p.len() <= s.len() && s.take(p.len() as int) == p
}

/// Merging keeps the set free of duplicates and leaves its members in place;
/// a relay is held afterwards exactly when it was held before, or `other`
/// brings it and `excluding` does not hold it.
pub proof fn lemma_merged(s: Seq<AddrView>, other: Seq<AddrView>, excluding: Seq<AddrView>)
    requires
        keys_unique(s),
    ensures
        keys_unique(merged(s, other, excluding)),
        is_prefix(s, merged(s, other, excluding)),
        forall|k: Seq<char>|
            #[trigger] holds_key(merged(s, other, excluding), k) <==> (holds_key(s, k) || (
            holds_key(other, k) && !holds_key(excluding, k))),
    decreases other.len(),
{
    if other.len() == 0 {
        assert(s.take(s.len() as int) =~= s);
        assert forall|k: Seq<char>| !#[trigger] holds_key(other, k) by {}
    } else {
        let dl = other.drop_last();
        let a = other.last();
        lemma_merged(s, dl, excluding);
        let prev = merged(s, dl, excluding);
        let m = merged(s, other, excluding);
        if !holds_key(excluding, a.0) && !holds_key(prev, a.0) {
            assert(m == prev.push(a));
            assert forall|i: int, j: int|
                0 <= i < m.len() && 0 <= j < m.len() && i != j implies #[trigger] m[i].0
                != #[trigger] m[j].0 by {
                if i == prev.len() {
                    assert(!(prev[j].0 == a.0));
                } else if j == prev.len() {
                    assert(!(prev[i].0 == a.0));
                }
            }
            assert(m.take(s.len() as int) =~= prev.take(s.len() as int));
            assert forall|k: Seq<char>| #[trigger] holds_key(m, k) implies holds_key(prev, k) || k
                == a.0 by {
                let i = choose|i: int| 0 <= i < m.len() && #[trigger] m[i].0 == k;
                if i < prev.len() {
                    assert(prev[i].0 == k);
                }
            }
            assert(m[prev.len() as int].0 == a.0);
        } else {
            assert(m == prev);
        }
        assert forall|k: Seq<char>| #[trigger] holds_key(other, k) implies holds_key(dl, k) || k
            == a.0 by {
            let i = choose|i: int| 0 <= i < other.len() && #[trigger] other[i].0 == k;
            if i < dl.len() {
                assert(dl[i].0 == k);
            }
        }
        assert forall|k: Seq<char>| #[trigger] holds_key(dl, k) implies holds_key(other, k) by {
            let i = choose|i: int| 0 <= i < dl.len() && #[trigger] dl[i].0 == k;
            assert(other[i].0 == k);
        }
        assert(other[other.len() - 1].0 == a.0);
        assert forall|k: Seq<char>| #[trigger] holds_key(prev, k) implies holds_key(m, k) by {
            let i = choose|i: int| 0 <= i < prev.len() && #[trigger] prev[i].0 == k;
            if m != prev {
                assert(m[i].0 == k);
            }
        }
        assert forall|k: Seq<char>| #[trigger] holds_key(m, k) <==> (holds_key(prev, k) || (k
            == a.0 && !holds_key(excluding, k))) by {
            if k == a.0 && !holds_key(excluding, k) && !holds_key(prev, k) {
                assert(m[prev.len() as int].0 == a.0);
            }
        }
    }
}

/// Merging never brings in a relay that `excluding` holds: every address
/// past the original members is absent from `excluding`, even where `other`
/// has it.
pub proof fn lemma_merge_excludes(s: Seq<AddrView>, other: Seq<AddrView>, excluding: Seq<AddrView>)
    ensures
        forall|i: int|
            s.len() <= i < merged(s, other, excluding).len() ==> !holds_key(
                excluding,
                #[trigger] merged(s, other, excluding)[i].0,
            ),
    decreases other.len(),
{
    if other.len() > 0 {
        let dl = other.drop_last();
        let a = other.last();
        lemma_merge_excludes(s, dl, excluding);
        let prev = merged(s, dl, excluding);
        let m = merged(s, other, excluding);
        if !holds_key(excluding, a.0) && !holds_key(prev, a.0) {
            assert(m == prev.push(a));
            assert forall|i: int| s.len() <= i < m.len() implies !holds_key(
                excluding,
                #[trigger] m[i].0,
            ) by {
                if i < prev.len() {
                    assert(m[i] == prev[i]);
                }
            }
        } else {
            assert(m == prev);
        }
    }
}

/// Merging more of `other` only appends: the result of merging a prefix of
/// `other` is a prefix of the result of merging all of it.
pub proof fn lemma_merged_grows(s: Seq<AddrView>, other: Seq<AddrView>, excluding: Seq<AddrView>, n: int)
    requires
        0 <= n <= other.len(),
    ensures
        is_prefix(merged(s, other.take(n), excluding), merged(s, other, excluding)),
    decreases other.len(),
{
    let m = merged(s, other, excluding);
    if n == other.len() {
        assert(other.take(n) =~= other);
        assert(m.take(m.len() as int) =~= m);
    } else {
        let dl = other.drop_last();
        assert(dl.take(n) =~= other.take(n));
        lemma_merged_grows(s, dl, excluding, n);
        let p = merged(s, other.take(n), excluding);
        let prev = merged(s, dl, excluding);
        assert(m.take(prev.len() as int) =~= prev);
        assert(m.take(p.len() as int) =~= prev.take(p.len() as int));
    }
}

/// Any sequence of insertions into an empty set gives a set with no relay
/// twice, holding exactly the relays inserted, in the order in which each
/// was first seen: what the first `n` insertions built stays, in place, at
/// the front of the result.
pub proof fn lemma_insertions(xs: Seq<AddrView>)
    ensures
        keys_unique(inserted_all(Seq::empty(), xs)),
        forall|k: Seq<char>|
            #[trigger] holds_key(inserted_all(Seq::empty(), xs), k) <==> holds_key(xs, k),
        forall|n: int|
            0 <= n <= xs.len() ==> is_prefix(
                #[trigger] inserted_all(Seq::empty(), xs.take(n)),
                inserted_all(Seq::empty(), xs),
            ),
{
    let e = Seq::<AddrView>::empty();
    lemma_merged(e, xs, e);
    assert forall|n: int| 0 <= n <= xs.len() implies is_prefix(
        #[trigger] inserted_all(e, xs.take(n)),
        inserted_all(e, xs),
    ) by {
        lemma_merged_grows(e, xs, e, n);
    }
    assert forall|k: Seq<char>| #[trigger] holds_key(inserted_all(e, xs), k) <==> holds_key(xs, k) by {
        lemma_empty_holds_nothing(k);
    }
}

/// An empty set holds no relay.
pub proof fn lemma_empty_holds_nothing(key: Seq<char>)
    ensures
        !holds_key(Seq::empty(), key),
{
}

} // verus!
