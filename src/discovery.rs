use vstd::prelude::*;
use crate::address::{AddrView, RelayAddress, relay_url_parse};
use crate::candidates::{RelayCandidateSet, holds_key, inserted_all, lemma_insertions};

verus! {

/// One tag of a preference event, as the list of its fields.
pub struct EventTag {
    pub fields: Vec<String>,
}

/// The fields of a tag as texts.
pub open spec fn tag_view(t: EventTag) -> Seq<Seq<char>> {
    t.fields@.map_values(|f: String| f@)
}

/// The tags of an event as texts.
pub open spec fn tags_view(tags: Seq<EventTag>) -> Seq<Seq<Seq<char>>> {
    tags.map_values(|t: EventTag| tag_view(t))
}

/// The address text of a relay-typed tag (first field `relay`, address in
/// the second); `None` for a tag of another kind.
pub open spec fn relay_tag_text(t: Seq<Seq<char>>) -> Option<Seq<char>> {
    if t.len() >= 2 && t[0] == "relay"@ {
        Some(t[1])
    } else {
        None
    }
}

/// The address texts of the relay-typed tags, in order.
pub open spec fn relay_texts(tags: Seq<Seq<Seq<char>>>) -> Seq<Seq<char>>
    decreases tags.len(),
{
    if tags.len() == 0 {
        Seq::empty()
    } else {
        let prev = relay_texts(tags.drop_last());
        match relay_tag_text(tags.last()) {
            Some(s) => prev.push(s),
            None => prev,
        }
    }
}

/// The successful parses among `parsed`, in order; failures are skipped.
pub open spec fn accepted(parsed: Seq<Option<AddrView>>) -> Seq<AddrView>
    decreases parsed.len(),
{
    if parsed.len() == 0 {
        Seq::empty()
    } else {
        let prev = accepted(parsed.drop_last());
        match parsed.last() {
            Some(a) => prev.push(a),
            None => prev,
        }
    }
}

/// The addresses that an event's tags declare, in order, malformed ones
/// skipped.
pub open spec fn declared_relays(tags: Seq<Seq<Seq<char>>>) -> Seq<AddrView> {
    accepted(relay_texts(tags).map_values(|s: Seq<char>| relay_url_parse(s)))
}

/// The outcome of discovery from the addresses found in a preference event:
/// those addresses without duplicates when there are any, else the seed set.
pub open spec fn chosen_relays(found: Seq<AddrView>, seed: Seq<AddrView>) -> Seq<AddrView> {
    if found.len() > 0 {
        inserted_all(Seq::empty(), found)
    } else {
        seed
    }
}

/// The outcome of discovery given the newest preference event's tags, if
/// one was found, and the seed set that was asked.
pub open spec fn discovery_result(event: Option<Seq<Seq<Seq<char>>>>, seed: Seq<AddrView>) -> Seq<
    AddrView,
> {
    match event {
        Some(tags) => chosen_relays(declared_relays(tags), seed),
        None => seed,
    }
}

/// The relays an identity prefers, or the seed set when it declared none.
pub enum Discovery {
    Found(RelayCandidateSet),
    Fallback(RelayCandidateSet),
}

impl Discovery {
    /// The relays to use, whichever way they were obtained.
    pub open spec fn relays_view(&self) -> Seq<AddrView> {
        match self {
            Discovery::Found(s) => s@,
            Discovery::Fallback(s) => s@,
        }
    }

    /// The set held, whichever way it was obtained.
    pub fn into_relays(self) -> (r: RelayCandidateSet)
        ensures
            r@ == self.relays_view(),
    {
        match self {
            Discovery::Found(s) => s,
            Discovery::Fallback(s) => s,
        }
    }

    /// Whether the relays came from a preference event.
    pub fn is_found(&self) -> (r: bool)
        ensures
            r == (self is Found),
    {
        match self {
            Discovery::Found(_) => true,
            Discovery::Fallback(_) => false,
        }
    }
}

/// The address text of a relay-typed tag.
fn relay_text(t: &EventTag) -> (r: Option<&String>)
    ensures
        match r {
            Some(s) => relay_tag_text(tag_view(*t)) == Some(s@),
            None => relay_tag_text(tag_view(*t)).is_none(),
        },
{
    if t.fields.len() >= 2 {
        let kind = "relay".to_owned();
        if t.fields[0] == kind {
            return Some(&t.fields[1]);
        }
    }
    None
}

/// Chooses the relays from the parse results of a preference event's relay
/// tags: the parsed addresses without duplicates when any parsed, else the
/// seed set unchanged.
pub fn choose_relays(parsed: Vec<Option<RelayAddress>>, seed: RelayCandidateSet) -> (r: Discovery)
    requires
        seed.wf(),
    ensures
        r.relays_view() == chosen_relays(
            accepted(parsed@.map_values(|p: Option<RelayAddress>| option_view(p))),
            seed@,
        ),
        r is Found <==> accepted(parsed@.map_values(|p: Option<RelayAddress>| option_view(p))).len()
            > 0,
        match r {
            Discovery::Found(s) => s.wf(),
            Discovery::Fallback(s) => s.wf(),
        },
{
    let ghost pv = parsed@.map_values(|p: Option<RelayAddress>| option_view(p));
    let mut found: Vec<RelayAddress> = Vec::new();
    let mut i: usize = 0;
    while i < parsed.len()
        invariant
            0 <= i <= parsed.len(),
            pv == parsed@.map_values(|p: Option<RelayAddress>| option_view(p)),
            found@.map_values(|a: RelayAddress| a@) == accepted(pv.take(i as int)),
        decreases parsed.len() - i,
    {
        assert(pv.take(i + 1).drop_last() =~= pv.take(i as int));
        match &parsed[i] {
            Some(a) => {
                let ghost before = found@.map_values(|a: RelayAddress| a@);
                found.push(a.clone());
                assert(found@.map_values(|a: RelayAddress| a@) =~= before.push(pv[i as int]->0));
            },
            None => {},
        }
        i = i + 1;
    }
    assert(pv.take(parsed.len() as int) =~= pv);
    let set = RelayCandidateSet::from_addresses(found);
    let ghost acc = accepted(pv);
    proof {
        assert(found@.map_values(|a: RelayAddress| a@) == acc);
        lemma_insertions(acc);
        if acc.len() > 0 {
            assert(holds_key(acc, acc[0].0));
            assert(holds_key(set@, acc[0].0));
        }
    }
    if set.is_empty() {
        Discovery::Fallback(seed)
    } else {
        Discovery::Found(set)
    }
}

/// The view of a parse result.
pub open spec fn option_view(p: Option<RelayAddress>) -> Option<AddrView> {
    match p {
        Some(a) => Some(a@),
        None => None,
    }
}

/// Discovery from the newest preference event found, if any: the relays its
/// relay-typed tags declare, malformed ones skipped, or the seed set
/// unchanged when it declares none or there is no event.
pub fn discover(event: Option<&Vec<EventTag>>, seed: RelayCandidateSet) -> (r: Discovery)
    requires
        seed.wf(),
        seed@.len() > 0,
    ensures
        r.relays_view() == discovery_result(
            match event {
                Some(tags) => Some(tags_view(tags@)),
                None => None,
            },
            seed@,
        ),
        r.relays_view().len() > 0,
        r is Found <==> match event {
            Some(tags) => declared_relays(tags_view(tags@)).len() > 0,
            None => false,
        },
        match r {
            Discovery::Found(s) => s.wf(),
            Discovery::Fallback(s) => s.wf(),
        },
{
    match event {
        None => Discovery::Fallback(seed),
        Some(tags) => {
            let ghost tv = tags_view(tags@);
            let mut parsed: Vec<Option<RelayAddress>> = Vec::new();
            let mut i: usize = 0;
            while i < tags.len()
                invariant
                    0 <= i <= tags.len(),
                    tv == tags_view(tags@),
                    parsed@.map_values(|p: Option<RelayAddress>| option_view(p)) == relay_texts(
                        tv.take(i as int),
                    ).map_values(|s: Seq<char>| relay_url_parse(s)),
                decreases tags.len() - i,
            {
                assert(tv.take(i + 1).drop_last() =~= tv.take(i as int));
                assert(tv[i as int] == tag_view(tags@[i as int]));
                let ghost before = parsed@.map_values(|p: Option<RelayAddress>| option_view(p));
                match relay_text(&tags[i]) {
                    Some(s) => {
                        let p = RelayAddress::parse(s.as_str());
                        parsed.push(p);
                        assert(parsed@.map_values(|p: Option<RelayAddress>| option_view(p))
                            =~= before.push(relay_url_parse(s@)));
                        assert(relay_texts(tv.take(i + 1)) == relay_texts(tv.take(i as int)).push(
                            s@,
                        ));
                        assert(relay_texts(tv.take(i + 1)).map_values(
                            |s: Seq<char>| relay_url_parse(s),
                        ) =~= relay_texts(tv.take(i as int)).map_values(
                            |s: Seq<char>| relay_url_parse(s),
                        ).push(relay_url_parse(s@)));
                    },
                    None => {},
                }
                i = i + 1;
            }
            assert(tv.take(tags.len() as int) =~= tv);
            let r = choose_relays(parsed, seed);
            proof {
                if r is Found {
                    let acc = declared_relays(tv);
                    lemma_insertions(acc);
                    assert(holds_key(acc, acc[0].0));
                    assert(holds_key(r.relays_view(), acc[0].0));
                }
            }
            r
        },
    }
}

/// Parse results that are all failures leave nothing accepted.
proof fn lemma_none_accepted(parsed: Seq<Option<AddrView>>)
    requires
        forall|i: int| 0 <= i < parsed.len() ==> (#[trigger] parsed[i]).is_none(),
    ensures
        accepted(parsed).len() == 0,
    decreases parsed.len(),
{
    if parsed.len() > 0 {
        lemma_none_accepted(parsed.drop_last());
    }
}

/// Discovery falls back to the seed set, exactly, when no preference event
/// is found, and when the event found declares no address that parses.
pub proof fn lemma_discovery_fallback(tags: Seq<Seq<Seq<char>>>, seed: Seq<AddrView>)
    requires
        forall|i: int|
            0 <= i < relay_texts(tags).len() ==> relay_url_parse(#[trigger] relay_texts(tags)[i]).is_none(),
    ensures
        discovery_result(None, seed) == seed,
        discovery_result(Some(tags), seed) == seed,
{
    let parsed = relay_texts(tags).map_values(|s: Seq<char>| relay_url_parse(s));
    assert forall|i: int| 0 <= i < parsed.len() implies (#[trigger] parsed[i]).is_none() by {
        assert(parsed[i] == relay_url_parse(relay_texts(tags)[i]));
    }
    lemma_none_accepted(parsed);
}

} // verus!
