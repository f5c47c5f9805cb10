use vstd::prelude::*;

verus! {

/// What an address is in contracts: its normalized form, which decides
/// identity, and the text under which it is shown and dialled.
pub type AddrView = (Seq<char>, Seq<char>);

/// What `RelayUrl::parse` makes of a text: `None` when the text is refused,
/// else the normalized URL serialization and the display serialization.
pub uninterp spec fn relay_url_parse(s: Seq<char>) -> Option<AddrView>;

/// What `Url::parse` followed by `host_str` and `port_or_known_default`
/// makes of a normalized relay address: the host and port to dial.
pub uninterp spec fn url_endpoint(s: Seq<char>) -> Option<(Seq<char>, u16)>;

/// Relies on nostr's `RelayUrl::parse`: it accepts or refuses a text from the
/// text alone; an accepted one yields the normalized serialization of the
/// underlying `Url` (what `RelayUrl` equality compares) and `RelayUrl::as_str`.
#[verifier::external_body]
fn parse_relay_url(s: &str) -> (r: Option<(String, String)>)
    ensures
        match r {
            Some(p) => relay_url_parse(s@) == Some((p.0@, p.1@)),
            None => relay_url_parse(s@).is_none(),
        },
{
    match nostr::types::RelayUrl::parse(s) {
        Ok(u) => {
            let text = u.as_str().to_string();
            let url: url::Url = u.into();
            Some((url.as_str().to_string(), text))
        },
        Err(_) => None,
    }
}

/// Relies on url's `Url::parse`, `Url::host_str` and
/// `Url::port_or_known_default`: the host and port a relay address names.
#[verifier::external_body]
fn endpoint_of(s: &str) -> (r: Option<(String, u16)>)
    ensures
        match r {
            Some(p) => url_endpoint(s@) == Some((p.0@, p.1)),
            None => url_endpoint(s@).is_none(),
        },
{
    match url::Url::parse(s) {
        Ok(u) => match (u.host_str(), u.port_or_known_default()) {
            (Some(h), Some(p)) => Some((h.to_string(), p)),
            _ => None,
        },
        Err(_) => None,
    }
}

/// A relay address in normalized form. It is only ever made by parsing, so
/// no unnormalized address can be held.
pub struct RelayAddress {
    key: String,
    text: String,
}

impl View for RelayAddress {
    type V = AddrView;

    closed spec fn view(&self) -> AddrView {
        (self.key@, self.text@)
    }
}

impl Clone for RelayAddress {
    fn clone(&self) -> (r: Self)
        ensures
            r@ == self@,
    {
        RelayAddress { key: self.key.clone(), text: self.text.clone() }
    }
}

impl RelayAddress {
    /// Parses and normalizes a relay address; a text that is not a relay URL
    /// is refused.
    pub fn parse(s: &str) -> (r: Option<RelayAddress>)
        ensures
            r.is_some() == relay_url_parse(s@).is_some(),
            r.is_some() ==> relay_url_parse(s@) == Some(r.unwrap()@),
    {
        match parse_relay_url(s) {
            Some(p) => Some(RelayAddress { key: p.0, text: p.1 }),
            None => None,
        }
    }

    /// The text under which the address is shown and dialled.
    pub fn as_str(&self) -> (r: &str)
        ensures
            r@ == self@.1,
    {
        self.text.as_str()
    }

    /// The normalized form, which decides whether two addresses are the same
    /// relay.
    pub fn normalized(&self) -> (r: &str)
        ensures
            r@ == self@.0,
    {
        self.key.as_str()
    }

    /// Whether two addresses name the same relay.
    pub fn same_relay(&self, other: &RelayAddress) -> (r: bool)
        ensures
            r == (self@.0 == other@.0),
    {
        self.key == other.key
    }

    /// The host and port to open a connection to.
    pub fn endpoint(&self) -> (r: Option<(String, u16)>)
        ensures
            r.is_some() == url_endpoint(self@.0).is_some(),
            r.is_some() ==> url_endpoint(self@.0) == Some((r.unwrap().0@, r.unwrap().1)),
    {
        endpoint_of(self.key.as_str())
    }
}

} // verus!
