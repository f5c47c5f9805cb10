use vstd::prelude::*;
use crate::address::{AddrView, RelayAddress, relay_url_parse};
use crate::candidates::{RelayCandidateSet, holds_key, inserted_all, lemma_empty_holds_nothing, lemma_merged_grows, merged};

verus! {

/// Why the relays to use could not be settled before any network activity.
#[derive(Debug, PartialEq, Eq, Clone, Copy)]
pub enum PlanError {
    /// A receiver given without a profile needs at least one relay hint.
    MissingRelayHints,
    /// The relay text at this position is not a relay URL.
    BadRelay(usize),
}

/// Whether every text in `ts` parses as a relay address.
pub open spec fn all_parse(ts: Seq<Seq<char>>) -> bool {
    forall|i: int| 0 <= i < ts.len() ==> (#[trigger] relay_url_parse(ts[i])).is_some()
}

/// The position of the first text in `ts` that is not a relay address.
pub open spec fn first_bad(ts: Seq<Seq<char>>, i: int) -> bool {
    &&& 0 <= i < ts.len()
    &&& relay_url_parse(ts[i]).is_none()
    &&& all_parse(ts.take(i))
}

/// The addresses that all-parsing texts stand for, in order.
pub open spec fn parsed_texts(ts: Seq<Seq<char>>) -> Seq<AddrView> {
    ts.map_values(|s: Seq<char>| relay_url_parse(s).unwrap())
}

/// Parses relay texts given by the user; every one must parse, and the
/// first that does not is reported by position. Repeats are dropped.
pub fn parse_relays(texts: &Vec<String>) -> (r: Result<RelayCandidateSet, usize>)
    ensures
        match r {
            Ok(s) => all_parse(texts@.map_values(|t: String| t@)) && s.wf() && s@ == inserted_all(
                Seq::empty(),
                parsed_texts(texts@.map_values(|t: String| t@)),
            ),
            Err(i) => first_bad(texts@.map_values(|t: String| t@), i as int),
        },
{
    let ghost ts = texts@.map_values(|t: String| t@);
    let mut set = RelayCandidateSet::new();
    let mut i: usize = 0;
    while i < texts.len()
        invariant
            0 <= i <= texts.len(),
            ts == texts@.map_values(|t: String| t@),
            all_parse(ts.take(i as int)),
            set.wf(),
            set@ == inserted_all(Seq::empty(), parsed_texts(ts.take(i as int))),
        decreases texts.len() - i,
    {
        match RelayAddress::parse(texts[i].as_str()) {
            Some(a) => {
                assert(parsed_texts(ts.take(i + 1)).drop_last() =~= parsed_texts(ts.take(i as int)));
                assert(parsed_texts(ts.take(i + 1)).last() == a@);
                set.add(a);
                assert forall|j: int| 0 <= j < i + 1 implies (#[trigger] relay_url_parse(
                    ts.take(i + 1)[j],
                )).is_some() by {
                    if j < i {
                        assert(ts.take(i + 1)[j] == ts.take(i as int)[j]);
                    }
                }
            },
            None => {
                return Err(i);
            },
        }
        i = i + 1;
    }
    assert(ts.take(texts.len() as int) =~= ts);
    Ok(set)
}

/// The relays named by explicit hints for a receiver given without a
/// profile: at least one is needed, and each must parse.
pub fn hinted_relays(hints: &Vec<String>) -> (r: Result<RelayCandidateSet, PlanError>)
    ensures
        hints@.len() == 0 ==> (r matches Err(PlanError::MissingRelayHints)),
        match r {
            Ok(s) => all_parse(hints@.map_values(|t: String| t@)) && s.wf() && s@ == inserted_all(
                Seq::empty(),
                parsed_texts(hints@.map_values(|t: String| t@)),
            ),
            Err(PlanError::BadRelay(i)) => first_bad(hints@.map_values(|t: String| t@), i as int),
            Err(PlanError::MissingRelayHints) => hints@.len() == 0,
        },
{
    if hints.len() == 0 {
        return Err(PlanError::MissingRelayHints);
    }
    match parse_relays(hints) {
        Ok(s) => Ok(s),
        Err(i) => Err(PlanError::BadRelay(i)),
    }
}

/// The receiver's relays followed by those of the sender's relays that the
/// receiver's set does not already hold, in their order.
pub fn with_sender_relays(receiver: RelayCandidateSet, sender: &RelayCandidateSet) -> (r:
    RelayCandidateSet)
    requires
        receiver.wf(),
    ensures
        r.wf(),
        r@ == merged(receiver@, sender@, receiver@),
{
    let mut r = receiver;
    let excluding = RelayCandidateSet::new();
    let ghost start = r@;
    r.merge(sender, &excluding);
    proof {
        lemma_merge_same_exclusion(start, sender@);
    }
    r
}

/// Excluding a set's own members changes nothing in a merge: they are
/// skipped either way.
proof fn lemma_merge_same_exclusion(s: Seq<AddrView>, other: Seq<AddrView>)
    ensures
        merged(s, other, Seq::empty()) == merged(s, other, s),
    decreases other.len(),
{
    if other.len() > 0 {
        let dl = other.drop_last();
        let a = other.last();
        lemma_merge_same_exclusion(s, dl);
        let prev = merged(s, dl, s);
        lemma_merged_grows(s, dl, s, 0);
        assert(dl.take(0) =~= Seq::<AddrView>::empty());
        if holds_key(s, a.0) {
            let i = choose|i: int| 0 <= i < s.len() && #[trigger] s[i].0 == a.0;
            assert(prev.take(s.len() as int)[i] == s[i]);
            assert(prev[i].0 == a.0);
        }
        lemma_empty_holds_nothing(a.0);
    }
}

} // verus!
