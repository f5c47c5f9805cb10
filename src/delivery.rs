use vstd::prelude::*;
use crate::address::{AddrView, RelayAddress};
use crate::candidates::{RelayCandidateSet, holds_key, keys_unique};
use crate::liveness::kept;

verus! {

/// The identity of a published message, as its hexadecimal text.
pub struct MessageId {
    pub hex: String,
}

/// Where one relay stands with the published message.
#[derive(Debug, PartialEq, Eq)]
pub enum AckState {
    Waiting,
    Accepted,
    Rejected(String),
    TimedOut,
}

/// What the shared notification stream delivered.
pub enum RelayResponse {
    /// A relay's verdict on a message.
    Ack { relay: RelayAddress, message_id: MessageId, accepted: bool, reason: String },
    /// Any other notification.
    Other,
}

/// How one bounded wait on the notification stream ended.
pub enum WaitResult {
    /// A notification arrived.
    Response(RelayResponse),
    /// The stream itself failed (closed, or fell behind).
    ChannelError,
    /// Nothing arrived before the remaining time ran out.
    Expired,
}

/// What the waiting loop does next.
#[derive(Debug, PartialEq, Eq, Clone, Copy)]
pub enum Step {
    Continue,
    Stop,
}

/// The state of a delivery as a mathematical value.
pub struct DeliveryView {
    pub message_id: Seq<char>,
    pub relays: Seq<AddrView>,
    pub states: Seq<AckState>,
    pub deadline: u64,
    pub channel_broken: bool,
}

/// A delivery in progress is well formed: one state per relay, no relay
/// twice, and none timed out yet.
pub open spec fn delivery_wf(v: DeliveryView) -> bool {
    &&& v.relays.len() == v.states.len()
    &&& keys_unique(v.relays)
    &&& forall|i: int| 0 <= i < v.states.len() ==> !(#[trigger] v.states[i] is TimedOut)
}

/// The verdict a relay's answer stands for.
pub open spec fn verdict(accepted: bool, reason: String) -> AckState {
    if accepted {
        AckState::Accepted
    } else {
        AckState::Rejected(reason)
    }
}

/// `v` after relay `key` answered `state` for message `id`: a relay still
/// waiting takes the verdict when the message is the one published; any
/// other answer changes nothing.
pub open spec fn answered(v: DeliveryView, key: Seq<char>, id: Seq<char>, state: AckState) -> DeliveryView {
    if id == v.message_id {
        DeliveryView {
            states: Seq::new(
                v.states.len(),
                |i: int|
                    if v.relays[i].0 == key && v.states[i] is Waiting {
                        state
                    } else {
                        v.states[i]
                    },
            ),
            ..v
        }
    } else {
        v
    }
}

/// `v` after one wait ended with `ev`.
pub open spec fn next_view(v: DeliveryView, ev: WaitResult) -> DeliveryView {
    match ev {
        WaitResult::Response(RelayResponse::Ack { relay, message_id, accepted, reason }) => answered(
            v,
            relay@.0,
            message_id.hex@,
            verdict(accepted, reason),
        ),
        WaitResult::Response(RelayResponse::Other) => v,
        WaitResult::ChannelError => DeliveryView { channel_broken: true, ..v },
        WaitResult::Expired => v,
    }
}

/// What the loop does after a wait ended with `ev`: it stops only when the
/// stream failed.
pub open spec fn step_after(ev: WaitResult) -> Step {
    match ev {
        WaitResult::ChannelError => Step::Stop,
        _ => Step::Continue,
    }
}

/// Whether some relay has not answered.
pub open spec fn some_waiting(states: Seq<AckState>) -> bool {
    exists|i: int| 0 <= i < states.len() && #[trigger] states[i] is Waiting
}

/// Whether the loop waits again at time `now`: the stream works, the
/// deadline is not reached, and some relay has not answered.
pub open spec fn keeps_waiting(v: DeliveryView, now: u64) -> bool {
    !v.channel_broken && now < v.deadline && some_waiting(v.states)
}

/// The final states: a relay still waiting when the loop ended timed out,
/// unless the stream failed, in which case it is left waiting.
pub open spec fn final_states(v: DeliveryView) -> Seq<AckState> {
    if v.channel_broken {
        v.states
    } else {
        Seq::new(
            v.states.len(),
            |i: int|
                if v.states[i] is Waiting {
                    AckState::TimedOut
                } else {
                    v.states[i]
                },
        )
    }
}

/// A delivery in progress: the relays the message went to, and what each
/// has answered.
pub struct Coordinator {
    message_id: MessageId,
    relays: Vec<RelayAddress>,
    states: Vec<AckState>,
    deadline: u64,
    channel_broken: bool,
}

impl View for Coordinator {
    type V = DeliveryView;

    closed spec fn view(&self) -> DeliveryView {
        DeliveryView {
            message_id: self.message_id.hex@,
            relays: self.relays@.map_values(|a: RelayAddress| a@),
            states: self.states@,
            deadline: self.deadline,
            channel_broken: self.channel_broken,
        }
    }
}

/// The report of a finished delivery: each relay with its final state.
pub struct DeliveryOutcome {
    relays: Vec<RelayAddress>,
    states: Vec<AckState>,
    channel_failed: bool,
}

/// A finished delivery as a mathematical value.
pub struct OutcomeView {
    pub relays: Seq<AddrView>,
    pub states: Seq<AckState>,
    pub channel_failed: bool,
}

impl View for DeliveryOutcome {
    type V = OutcomeView;

    closed spec fn view(&self) -> OutcomeView {
        OutcomeView {
            relays: self.relays@.map_values(|a: RelayAddress| a@),
            states: self.states@,
            channel_failed: self.channel_failed,
        }
    }
}

/// A report is well formed: one state per relay, no relay twice.
pub open spec fn outcome_wf(o: OutcomeView) -> bool {
    o.relays.len() == o.states.len() && keys_unique(o.relays)
}

/// Whether a relay in state `s` gave no verdict.
pub open spec fn silent(s: AckState) -> bool {
    s is Waiting || s is TimedOut
}

/// Whether the delivery failed as a whole: no relay was live, or the stream
/// failed before any relay answered.
pub open spec fn total_failure(o: OutcomeView) -> bool {
    o.relays.len() == 0 || (o.channel_failed && forall|i: int|
        0 <= i < o.states.len() ==> #[trigger] o.states[i] is Waiting)
}

impl DeliveryOutcome {
    /// The number of relays reported on.
    pub fn len(&self) -> (r: usize)
        ensures
            r == self@.relays.len(),
    {
        self.relays.len()
    }

    /// The relay at position `i`.
    pub fn relay(&self, i: usize) -> (r: &RelayAddress)
        requires
            i < self@.relays.len(),
        ensures
            r@ == self@.relays[i as int],
    {
        &self.relays[i]
    }

    /// The final state of the relay at position `i`.
    pub fn state(&self, i: usize) -> (r: &AckState)
        requires
            outcome_wf(self@),
            i < self@.relays.len(),
        ensures
            *r == self@.states[i as int],
    {
        &self.states[i]
    }

    /// Whether the stream of notifications failed before the deadline.
    pub fn channel_failed(&self) -> (r: bool)
        ensures
            r == self@.channel_failed,
    {
        self.channel_failed
    }

    /// The final state of the relay that `a` names, if it was reported on.
    pub fn state_of(&self, a: &RelayAddress) -> (r: Option<&AckState>)
        requires
            outcome_wf(self@),
        ensures
            r.is_some() == holds_key(self@.relays, a@.0),
            forall|i: int|
                0 <= i < self@.relays.len() && #[trigger] self@.relays[i].0 == a@.0 ==> r == Some(
                    &self@.states[i],
                ),
    {
        let mut i: usize = 0;
        while i < self.relays.len()
            invariant
                0 <= i <= self.relays.len(),
                outcome_wf(self@),
                forall|j: int| 0 <= j < i ==> #[trigger] self@.relays[j].0 != a@.0,
            decreases self.relays.len() - i,
        {
            assert(self@.relays[i as int] == self.relays@[i as int]@);
            if self.relays[i].same_relay(a) {
                assert(self@.relays[i as int].0 == a@.0);
                return Some(&self.states[i]);
            }
            i = i + 1;
        }
        None
    }

    /// The relays that gave no verdict, in order: each is reported on its
    /// own.
    pub fn no_response(&self) -> (r: Vec<RelayAddress>)
        requires
            outcome_wf(self@),
        ensures
            r@.map_values(|a: RelayAddress| a@) == kept(
                self@.relays,
                self@.states.map_values(|s: AckState| silent(s)),
            ),
    {
        let ghost flags = self@.states.map_values(|s: AckState| silent(s));
        let mut r: Vec<RelayAddress> = Vec::new();
        let mut i: usize = 0;
        while i < self.relays.len()
            invariant
                0 <= i <= self.relays.len(),
                outcome_wf(self@),
                flags == self@.states.map_values(|s: AckState| silent(s)),
                r@.map_values(|a: RelayAddress| a@) == kept(
                    self@.relays.take(i as int),
                    flags.take(i as int),
                ),
            decreases self.relays.len() - i,
        {
            assert(self@.relays.take(i + 1).drop_last() =~= self@.relays.take(i as int));
            assert(flags.take(i + 1).take(i as int) =~= flags.take(i as int));
            let quiet = match &self.states[i] {
                AckState::Waiting => true,
                AckState::TimedOut => true,
                _ => false,
            };
            assert(quiet == flags[i as int]);
            if quiet {
                let ghost before = r@.map_values(|a: RelayAddress| a@);
                r.push(self.relays[i].clone());
                assert(r@.map_values(|a: RelayAddress| a@) =~= before.push(self@.relays[i as int]));
            }
            i = i + 1;
        }
        assert(self@.relays.take(self.relays.len() as int) =~= self@.relays);
        assert(flags.take(self.relays.len() as int) =~= flags);
        r
    }

    /// Whether the delivery failed as a whole, so that a caller may try
    /// other relays.
    pub fn is_total_failure(&self) -> (r: bool)
        requires
            outcome_wf(self@),
        ensures
            r == total_failure(self@),
    {
        if self.relays.len() == 0 {
            return true;
        }
        if !self.channel_failed {
            return false;
        }
        let mut i: usize = 0;
        while i < self.states.len()
            invariant
                0 <= i <= self.states.len(),
                self.relays.len() > 0,
                self.channel_failed,
                forall|j: int| 0 <= j < i ==> #[trigger] self@.states[j] is Waiting,
            decreases self.states.len() - i,
        {
            match &self.states[i] {
                AckState::Waiting => {},
                _ => {
                    assert(!(self@.states[i as int] is Waiting));
                    return false;
                },
            }
            i = i + 1;
        }
        true
    }
}

/// An answer keyed to another message than the one published changes no
/// relay's state, and the loop goes on waiting.
pub proof fn lemma_foreign_ack_ignored(v: DeliveryView, ev: WaitResult)
    requires
        match ev {
            WaitResult::Response(RelayResponse::Ack { message_id, .. }) => message_id.hex@
                != v.message_id,
            _ => false,
        },
    ensures
        next_view(v, ev) == v,
        step_after(ev) == Step::Continue,
{
}

/// While a relay has not answered and the stream works, the loop waits
/// until the deadline and no longer; when it ends, exactly the relays that
/// never answered are reported as timed out, and every answer is kept.
pub proof fn lemma_deadline_termination(v: DeliveryView, now: u64)
    requires
        delivery_wf(v),
        !v.channel_broken,
        some_waiting(v.states),
    ensures
        keeps_waiting(v, now) <==> now < v.deadline,
        final_states(v).len() == v.states.len(),
        forall|i: int|
            0 <= i < v.states.len() ==> (#[trigger] final_states(v)[i] is TimedOut <==> v.states[i] is Waiting),
        forall|i: int|
            0 <= i < v.states.len() && !(v.states[i] is Waiting) ==> #[trigger] final_states(v)[i]
                == v.states[i],
{
}

fn verdict_of(accepted: bool, reason: &String) -> (r: AckState)
    ensures
        r == verdict(accepted, *reason),
{
    if accepted {
        AckState::Accepted
    } else {
        AckState::Rejected(reason.clone())
    }
}

impl Coordinator {
    /// Starts waiting for every live relay's answer to the message published
    /// at `published_at_ms`; the deadline is `budget_ms` after publishing.
    pub fn new(live: RelayCandidateSet, message_id: MessageId, published_at_ms: u64, budget_ms: u64) -> (r: Coordinator)
        requires
            live.wf(),
            published_at_ms + budget_ms <= u64::MAX,
        ensures
            delivery_wf(r@),
            r@.message_id == message_id.hex@,
            r@.relays == live@,
            r@.states == Seq::new(live@.len(), |i: int| AckState::Waiting),
            r@.deadline == published_at_ms + budget_ms,
            !r@.channel_broken,
    {
        let relays = live.into_vec();
        let mut states: Vec<AckState> = Vec::new();
        let mut i: usize = 0;
        while i < relays.len()
            invariant
                0 <= i <= relays.len(),
                states@ == Seq::new(i as nat, |j: int| AckState::Waiting),
            decreases relays.len() - i,
        {
            states.push(AckState::Waiting);
            assert(states@ =~= Seq::new((i + 1) as nat, |j: int| AckState::Waiting));
            i = i + 1;
        }
        Coordinator {
            message_id,
            relays,
            states,
            deadline: published_at_ms + budget_ms,
            channel_broken: false,
        }
    }

    /// The identity of the message whose answers are awaited.
    pub fn message_id(&self) -> (r: &MessageId)
        ensures
            r.hex@ == self@.message_id,
    {
        &self.message_id
    }

    /// Whether to wait again at time `now_ms`.
    pub fn keep_waiting(&self, now_ms: u64) -> (r: bool)
        requires
            delivery_wf(self@),
        ensures
            r == keeps_waiting(self@, now_ms),
    {
        if self.channel_broken || now_ms >= self.deadline {
            return false;
        }
        let mut i: usize = 0;
        while i < self.states.len()
            invariant
                0 <= i <= self.states.len(),
                !self.channel_broken,
                now_ms < self.deadline,
                forall|j: int| 0 <= j < i ==> !(#[trigger] self.states@[j] is Waiting),
            decreases self.states.len() - i,
        {
            match &self.states[i] {
                AckState::Waiting => {
                    assert(self@.states[i as int] is Waiting);
                    assert(some_waiting(self@.states));
                    return true;
                },
                _ => {},
            }
            i = i + 1;
        }
        false
    }

    /// How long the next wait may last at time `now_ms`: the time left
    /// until the deadline, or nothing once it has passed.
    pub fn remaining_ms(&self, now_ms: u64) -> (r: u64)
        ensures
            r == if now_ms < self@.deadline {
                self@.deadline - now_ms
            } else {
                0
            },
    {
        if now_ms < self.deadline {
            self.deadline - now_ms
        } else {
            0
        }
    }

    /// Takes in how one wait ended: a verdict on the published message from
    /// a relay still waiting is recorded; any other notification, or a wait
    /// that ran out, changes nothing; a failed stream stops the loop.
    pub fn on_wait(&mut self, ev: WaitResult) -> (r: Step)
        requires
            delivery_wf(old(self)@),
        ensures
            delivery_wf(final(self)@),
            final(self)@ == next_view(old(self)@, ev),
            r == step_after(ev),
    {
        match ev {
            WaitResult::Response(RelayResponse::Ack { relay, message_id, accepted, reason }) => {
                if message_id.hex == self.message_id.hex {
                    let ghost v = self@;
                    let ghost target = Seq::new(
                        v.states.len(),
                        |j: int|
                            if v.relays[j].0 == relay@.0 && v.states[j] is Waiting {
                                verdict(accepted, reason)
                            } else {
                                v.states[j]
                            },
                    );
                    let mut i: usize = 0;
                    while i < self.states.len()
                        invariant
                            0 <= i <= self.states.len(),
                            self.states.len() == v.states.len(),
                            delivery_wf(v),
                            message_id.hex@ == v.message_id,
                            target == Seq::new(
                                v.states.len(),
                                |j: int|
                                    if v.relays[j].0 == relay@.0 && v.states[j] is Waiting {
                                        verdict(accepted, reason)
                                    } else {
                                        v.states[j]
                                    },
                            ),
                            self.relays@.map_values(|a: RelayAddress| a@) == v.relays,
                            self.relays.len() == v.relays.len(),
                            self.message_id.hex@ == v.message_id,
                            self.deadline == v.deadline,
                            self.channel_broken == v.channel_broken,
                            forall|j: int| 0 <= j < i ==> #[trigger] self.states@[j] == target[j],
                            forall|j: int| i <= j < self.states.len() ==> #[trigger] self.states@[j] == v.states[j],
                        decreases self.states.len() - i,
                    {
                        let waiting = match &self.states[i] {
                            AckState::Waiting => true,
                            _ => false,
                        };
                        assert(self.relays@.map_values(|a: RelayAddress| a@)[i as int]
                            == self.relays@[i as int]@);
                        if waiting && self.relays[i].same_relay(&relay) {
                            let st = verdict_of(accepted, &reason);
                            self.states.set(i, st);
                            assert(self.states@[i as int] == target[i as int]);
                        } else {
                            assert(self.states@[i as int] == target[i as int]);
                        }
                        i = i + 1;
                    }
                    assert(self@.states =~= target);
                    assert(self@.relays == v.relays);
                    assert(self@.message_id == v.message_id);
                    assert(answered(v, relay@.0, message_id.hex@, verdict(accepted, reason)).states
                        =~= target);
                    assert(self@ == answered(v, relay@.0, message_id.hex@, verdict(accepted, reason)));
                }
                Step::Continue
            },
            WaitResult::Response(RelayResponse::Other) => Step::Continue,
            WaitResult::ChannelError => {
                self.channel_broken = true;
                Step::Stop
            },
            WaitResult::Expired => Step::Continue,
        }
    }

    /// Ends the delivery: a relay that has not answered is reported as timed
    /// out, or, when the stream failed, as still waiting.
    pub fn finish(self) -> (r: DeliveryOutcome)
        requires
            delivery_wf(self@),
        ensures
            outcome_wf(r@),
            r@.relays == self@.relays,
            r@.states == final_states(self@),
            r@.channel_failed == self@.channel_broken,
    {
        let ghost v = self@;
        let Coordinator { message_id: _, relays, mut states, deadline: _, channel_broken } = self;
        if !channel_broken {
            let mut i: usize = 0;
            while i < states.len()
                invariant
                    0 <= i <= states.len(),
                    states.len() == v.states.len(),
                    !v.channel_broken,
                    forall|j: int| 0 <= j < i ==> #[trigger] states@[j] == final_states(v)[j],
                    forall|j: int| i <= j < states.len() ==> #[trigger] states@[j] == v.states[j],
                decreases states.len() - i,
            {
                let waiting = match &states[i] {
                    AckState::Waiting => true,
                    _ => false,
                };
                if waiting {
                    states.set(i, AckState::TimedOut);
                }
                i = i + 1;
            }
        }
        let r = DeliveryOutcome { relays, states, channel_failed: channel_broken };
        assert(r@.states =~= final_states(v));
        r
    }
}

} // verus!
