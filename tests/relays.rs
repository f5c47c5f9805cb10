use dm_relays::address::RelayAddress;
use dm_relays::candidates::RelayCandidateSet;
use dm_relays::delivery::{
    AckState, Coordinator, MessageId, RelayResponse, Step, WaitResult,
};
use dm_relays::discovery::{choose_relays, discover, Discovery, EventTag};
use dm_relays::liveness::filter_live;
use dm_relays::plan::{hinted_relays, parse_relays, with_sender_relays, PlanError};

fn addr(s: &str) -> RelayAddress {
    RelayAddress::parse(s).unwrap()
}

fn set_of(texts: &[&str]) -> RelayCandidateSet {
    RelayCandidateSet::from_addresses(texts.iter().map(|t| addr(t)).collect())
}

fn texts(s: &RelayCandidateSet) -> Vec<String> {
    (0..s.len()).map(|i| s.get(i).as_str().to_string()).collect()
}

fn tag(fields: &[&str]) -> EventTag {
    EventTag { fields: fields.iter().map(|f| f.to_string()).collect() }
}

fn msg_id(hex: &str) -> MessageId {
    MessageId { hex: hex.to_string() }
}

fn ack(relay: &str, id: &str, accepted: bool, reason: &str) -> WaitResult {
    WaitResult::Response(RelayResponse::Ack {
        relay: addr(relay),
        message_id: msg_id(id),
        accepted,
        reason: reason.to_string(),
    })
}

#[test]
fn parse_normalizes_and_refuses() {
    let a = addr("wss://relay.example.com");
    let b = addr("wss://RELAY.example.com/");
    assert_eq!(a.as_str(), "wss://relay.example.com");
    assert_eq!(a.normalized(), "wss://relay.example.com/");
    assert!(a.same_relay(&b));
    assert!(RelayAddress::parse("https://relay.example.com").is_none());
    assert!(RelayAddress::parse("wss://bad uri").is_none());
    assert!(RelayAddress::parse("not a url").is_none());
}

#[test]
fn endpoint_gives_host_and_port() {
    assert_eq!(
        addr("wss://relay.example.com").endpoint(),
        Some(("relay.example.com".to_string(), 443))
    );
    assert_eq!(addr("ws://127.0.0.1:7777").endpoint(), Some(("127.0.0.1".to_string(), 7777)));
    assert_eq!(addr("ws://example.org").endpoint(), Some(("example.org".to_string(), 80)));
}

#[test]
fn insertions_stay_unique_in_first_seen_order() {
    let mut s = RelayCandidateSet::new();
    assert!(s.is_empty());
    s.add(addr("wss://b.example"));
    s.add(addr("wss://a.example"));
    s.add(addr("wss://b.example/"));
    s.add(addr("wss://c.example"));
    s.add(addr("wss://a.example"));
    assert_eq!(texts(&s), vec!["wss://b.example", "wss://a.example", "wss://c.example"]);
    assert!(s.contains(&addr("wss://c.example/")));
    assert!(!s.contains(&addr("wss://d.example")));
}

#[test]
fn from_addresses_drops_later_repeats() {
    let s = set_of(&["wss://x.example", "wss://y.example", "wss://x.example"]);
    assert_eq!(texts(&s), vec!["wss://x.example", "wss://y.example"]);
}

#[test]
fn merge_skips_excluded_and_present() {
    let mut a = set_of(&["wss://a.example", "wss://b.example"]);
    let other = set_of(&["wss://c.example", "wss://b.example", "wss://d.example", "wss://e.example"]);
    let excluding = set_of(&["wss://d.example", "wss://a.example"]);
    a.merge(&other, &excluding);
    assert_eq!(
        texts(&a),
        vec!["wss://a.example", "wss://b.example", "wss://c.example", "wss://e.example"]
    );
}

#[test]
fn sender_relays_follow_receiver_relays() {
    let receiver = set_of(&["wss://r1.example", "wss://r2.example"]);
    let sender = set_of(&["wss://r2.example", "wss://s1.example"]);
    let r = with_sender_relays(receiver, &sender);
    assert_eq!(texts(&r), vec!["wss://r1.example", "wss://r2.example", "wss://s1.example"]);
}

#[test]
fn discovery_without_event_falls_back_to_seed() {
    let seed = set_of(&["wss://seed1.example", "wss://seed2.example"]);
    let d = discover(None, seed);
    assert!(!d.is_found());
    assert!(matches!(d, Discovery::Fallback(_)));
    assert_eq!(texts(&d.into_relays()), vec!["wss://seed1.example", "wss://seed2.example"]);
}

#[test]
fn discovery_with_no_relay_tags_falls_back_to_seed() {
    let seed = set_of(&["wss://seed.example"]);
    let tags = vec![tag(&["p", "abcd"]), tag(&["relay"]), tag(&["relay", "https://web.example"])];
    let d = discover(Some(&tags), seed);
    assert!(!d.is_found());
    assert_eq!(texts(&d.into_relays()), vec!["wss://seed.example"]);
}

#[test]
fn discovery_extracts_relay_tags_in_order() {
    let seed = set_of(&["wss://seed.example"]);
    let tags = vec![
        tag(&["relay", "wss://a"]),
        tag(&["relay", "wss://bad uri"]),
        tag(&["relay", "wss://b"]),
    ];
    let d = discover(Some(&tags), seed);
    assert!(d.is_found());
    assert_eq!(texts(&d.into_relays()), vec!["wss://a", "wss://b"]);
}

#[test]
fn discovery_ignores_other_tag_kinds() {
    let seed = set_of(&["wss://seed.example"]);
    let tags = vec![tag(&["r", "wss://x.example"]), tag(&["relay", "wss://y.example", "extra"])];
    let d = discover(Some(&tags), seed);
    assert_eq!(texts(&d.into_relays()), vec!["wss://y.example"]);
}

#[test]
fn choose_relays_from_parse_results() {
    let seed = set_of(&["wss://seed.example"]);
    let d = choose_relays(vec![None, Some(addr("wss://a.example")), Some(addr("wss://a.example/"))], seed);
    assert!(d.is_found());
    assert_eq!(texts(&d.into_relays()), vec!["wss://a.example"]);
    let seed = set_of(&["wss://seed.example"]);
    let d = choose_relays(vec![None, None], seed);
    assert!(!d.is_found());
    assert_eq!(texts(&d.into_relays()), vec!["wss://seed.example"]);
}

#[test]
fn liveness_keeps_only_reachable() {
    let c = set_of(&["wss://x.example", "wss://y.example"]);
    let live = filter_live(&c, &vec![true, false]);
    assert_eq!(texts(&live), vec!["wss://x.example"]);
    let none = filter_live(&c, &vec![false, false]);
    assert!(none.is_empty());
}

#[test]
fn parse_relays_reports_first_bad() {
    let ok = parse_relays(&vec!["wss://a.example".to_string(), "wss://a.example/".to_string()]);
    assert_eq!(texts(&ok.unwrap()), vec!["wss://a.example"]);
    let bad = parse_relays(&vec![
        "wss://a.example".to_string(),
        "http://b.example".to_string(),
        "nope".to_string(),
    ]);
    assert_eq!(bad.err(), Some(1));
}

#[test]
fn hinted_relays_need_one_hint() {
    assert_eq!(hinted_relays(&vec![]).err(), Some(PlanError::MissingRelayHints));
    assert_eq!(hinted_relays(&vec!["ftp://x".to_string()]).err(), Some(PlanError::BadRelay(0)));
    let s = hinted_relays(&vec!["wss://h.example".to_string()]).unwrap();
    assert_eq!(texts(&s), vec!["wss://h.example"]);
}

#[test]
fn deadline_reports_unanswered_as_timed_out() {
    let live = set_of(&["wss://r1.example", "wss://r2.example", "wss://r3.example"]);
    let mut c = Coordinator::new(live, msg_id("e1"), 1000, 5000);
    assert_eq!(c.on_wait(ack("wss://r2.example", "e1", true, "")), Step::Continue);
    assert!(c.keep_waiting(1000));
    assert!(c.keep_waiting(5999));
    assert_eq!(c.remaining_ms(5999), 1);
    assert_eq!(c.on_wait(WaitResult::Expired), Step::Continue);
    assert!(!c.keep_waiting(6000));
    assert_eq!(c.remaining_ms(7000), 0);
    let out = c.finish();
    assert_eq!(out.state(0), &AckState::TimedOut);
    assert_eq!(out.state(1), &AckState::Accepted);
    assert_eq!(out.state(2), &AckState::TimedOut);
    let silent: Vec<String> = out.no_response().iter().map(|a| a.as_str().to_string()).collect();
    assert_eq!(silent, vec!["wss://r1.example", "wss://r3.example"]);
    assert!(!out.is_total_failure());
}

#[test]
fn all_answered_ends_waiting_early() {
    let live = set_of(&["wss://r1.example"]);
    let mut c = Coordinator::new(live, msg_id("e1"), 0, 5000);
    c.on_wait(ack("wss://r1.example", "e1", true, ""));
    assert!(!c.keep_waiting(10));
}

#[test]
fn foreign_ack_changes_nothing() {
    let live = set_of(&["wss://r1.example"]);
    let mut c = Coordinator::new(live, msg_id("e1"), 0, 5000);
    assert_eq!(c.on_wait(ack("wss://r1.example", "other", true, "")), Step::Continue);
    assert_eq!(c.on_wait(WaitResult::Response(RelayResponse::Other)), Step::Continue);
    assert_eq!(c.on_wait(ack("wss://unknown.example", "e1", true, "")), Step::Continue);
    assert!(c.keep_waiting(10));
    let out = c.finish();
    assert_eq!(out.state(0), &AckState::TimedOut);
}

#[test]
fn second_answer_is_ignored() {
    let live = set_of(&["wss://r1.example"]);
    let mut c = Coordinator::new(live, msg_id("e1"), 0, 5000);
    c.on_wait(ack("wss://r1.example", "e1", false, "blocked"));
    c.on_wait(ack("wss://r1.example", "e1", true, ""));
    let out = c.finish();
    assert_eq!(out.state(0), &AckState::Rejected("blocked".to_string()));
}

#[test]
fn channel_error_stops_and_leaves_waiting() {
    let live = set_of(&["wss://r1.example", "wss://r2.example"]);
    let mut c = Coordinator::new(live, msg_id("e1"), 0, 5000);
    assert_eq!(c.on_wait(WaitResult::ChannelError), Step::Stop);
    assert!(!c.keep_waiting(1));
    let out = c.finish();
    assert!(out.channel_failed());
    assert_eq!(out.state(0), &AckState::Waiting);
    assert_eq!(out.state(1), &AckState::Waiting);
    assert!(out.is_total_failure());
    assert_eq!(out.no_response().len(), 2);
}

#[test]
fn no_live_relays_is_total_failure() {
    let c = Coordinator::new(RelayCandidateSet::new(), msg_id("e1"), 0, 5000);
    assert!(!c.keep_waiting(0));
    assert!(c.finish().is_total_failure());
}

#[test]
fn scenario_single_relay_accepts() {
    let seed = set_of(&["wss://r1.example"]);
    let found = discover(None, seed).into_relays();
    assert_eq!(texts(&found), vec!["wss://r1.example"]);
    let live = filter_live(&found, &vec![true]);
    assert_eq!(texts(&live), vec!["wss://r1.example"]);
    let mut c = Coordinator::new(live, msg_id("ab01"), 100, 5000);
    assert!(c.keep_waiting(100));
    assert_eq!(c.on_wait(ack("wss://r1.example", "ab01", true, "")), Step::Continue);
    assert!(!c.keep_waiting(300));
    let out = c.finish();
    assert_eq!(out.len(), 1);
    assert_eq!(out.state_of(&addr("wss://r1.example")), Some(&AckState::Accepted));
    assert_eq!(out.relay(0).as_str(), "wss://r1.example");
}

#[test]
fn scenario_reject_and_silence() {
    let live = set_of(&["wss://r1.example", "wss://r2.example"]);
    let mut c = Coordinator::new(live, msg_id("cd02"), 0, 5000);
    c.on_wait(ack("wss://r1.example", "cd02", false, "rate-limited"));
    assert!(c.keep_waiting(4999));
    c.on_wait(WaitResult::Expired);
    assert!(!c.keep_waiting(5000));
    let out = c.finish();
    assert_eq!(
        out.state_of(&addr("wss://r1.example")),
        Some(&AckState::Rejected("rate-limited".to_string()))
    );
    assert_eq!(out.state_of(&addr("wss://r2.example")), Some(&AckState::TimedOut));
    assert_eq!(out.state_of(&addr("wss://r3.example")), None);
}
