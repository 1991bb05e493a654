//! Runs of the pipeline: what it asks for and what it reports over a whole
//! sequence of events, whatever the collaborators answer.

use crate::digest::Digest;
use crate::error::CapabilityFailure;
use crate::error::VerificationError;
use crate::error::VerifierFailure;
use crate::pipeline::lemma_next_keeps_well_formed;
use crate::pipeline::ActionView;
use crate::pipeline::CallPolicy;
use crate::pipeline::EventView;
use crate::pipeline::Phase;
use crate::pipeline::StageView;
use crate::pipeline::VerificationOutcome;
use crate::pipeline::VerifierView;
use crate::sov_coin::decode;
use vstd::prelude::*;

verus! {

/// The pipeline after `events`, taken one after the other from `start`.
pub open spec fn state_after(start: VerifierView, events: Seq<EventView>) -> VerifierView
    decreases events.len(),
{
    if events.len() == 0 {
        start
    } else {
        state_after(start, events.drop_last()).next(events.last()).0
    }
}

/// The actions that the pipeline asks for while it takes `events` from
/// `start`: one for each event.
pub open spec fn actions_of(start: VerifierView, events: Seq<EventView>) -> Seq<ActionView>
    decreases events.len(),
{
    if events.len() == 0 {
        Seq::empty()
    } else {
        actions_of(start, events.drop_last()).push(
            state_after(start, events.drop_last()).next(events.last()).1,
        )
    }
}

/// The outcomes that `actions` hand to the outbound channel, in their order.
pub open spec fn emitted(actions: Seq<ActionView>) -> Seq<VerificationOutcome>
    decreases actions.len(),
{
    if actions.len() == 0 {
        Seq::empty()
    } else {
        match actions.last() {
            ActionView::Emit(outcome) => emitted(actions.drop_last()).push(outcome),
            _ => emitted(actions.drop_last()),
        }
    }
}

/// The outcomes that the pipeline reports while it takes `events` from `start`.
pub open spec fn outcomes_of(start: VerifierView, events: Seq<EventView>) -> Seq<
    VerificationOutcome,
> {
    emitted(actions_of(start, events))
}

/// One more event adds one step to a run.
pub proof fn lemma_run_one_more(start: VerifierView, events: Seq<EventView>, event: EventView)
    ensures
        state_after(start, events.push(event)) == state_after(start, events).next(event).0,
        actions_of(start, events.push(event)) == actions_of(start, events).push(
            state_after(start, events).next(event).1,
        ),
        outcomes_of(start, events.push(event)) == match state_after(start, events).next(event).1 {
            ActionView::Emit(outcome) => outcomes_of(start, events).push(outcome),
            _ => outcomes_of(start, events),
        },
{
    assert(events.push(event).drop_last() =~= events);
    let actions = actions_of(start, events.push(event));
    assert(actions.drop_last() =~= actions_of(start, events));
}

/// A run over two sequences of events, one after the other, is the run over
/// the first followed by the run over the second from where the first ended.
pub proof fn lemma_run_in_two_parts(
    start: VerifierView,
    first: Seq<EventView>,
    second: Seq<EventView>,
)
    ensures
        state_after(start, first + second) == state_after(state_after(start, first), second),
        actions_of(start, first + second) == actions_of(start, first) + actions_of(
            state_after(start, first),
            second,
        ),
        outcomes_of(start, first + second) == outcomes_of(start, first) + outcomes_of(
            state_after(start, first),
            second,
        ),
    decreases second.len(),
{
    let middle = state_after(start, first);
    if second.len() == 0 {
        assert(first + second =~= first);
        assert(actions_of(start, first) + actions_of(middle, second) =~= actions_of(start, first));
        assert(outcomes_of(start, first) + outcomes_of(middle, second) =~= outcomes_of(
            start,
            first,
        ));
    } else {
        let event = second.last();
        let shorter = second.drop_last();
        lemma_run_in_two_parts(start, first, shorter);
        assert(first + second =~= (first + shorter).push(event));
        assert(second =~= shorter.push(event));
        lemma_run_one_more(start, first + shorter, event);
        lemma_run_one_more(middle, shorter, event);
        let action = state_after(middle, shorter).next(event).1;
        assert(actions_of(start, first) + actions_of(middle, shorter).push(action) =~= (
        actions_of(start, first) + actions_of(middle, shorter)).push(action));
        match action {
            ActionView::Emit(outcome) => {
                assert(outcomes_of(start, first) + outcomes_of(middle, shorter).push(outcome)
                    =~= (outcomes_of(start, first) + outcomes_of(middle, shorter)).push(outcome));
            },
            _ => {},
        }
    }
}

/// A run over a single event is one step.
pub proof fn lemma_run_of_one(start: VerifierView, event: EventView)
    ensures
        state_after(start, seq![event]) == start.next(event).0,
        actions_of(start, seq![event]) == seq![start.next(event).1],
        outcomes_of(start, seq![event]) == match start.next(event).1 {
            ActionView::Emit(outcome) => seq![outcome],
            _ => Seq::<VerificationOutcome>::empty(),
        },
{
    let none = Seq::<EventView>::empty();
    assert(seq![event] =~= none.push(event));
    lemma_run_one_more(start, none, event);
    assert(actions_of(start, none).push(start.next(event).1) =~= seq![start.next(event).1]);
    assert(outcomes_of(start, none) =~= Seq::<VerificationOutcome>::empty());
    match start.next(event).1 {
        ActionView::Emit(outcome) => {
            assert(outcomes_of(start, none).push(outcome) =~= seq![outcome]);
        },
        _ => {},
    }
}

/// The events by which the resolver fails, once for each of `failures`.
pub open spec fn resolver_failures(failures: Seq<CapabilityFailure>) -> Seq<EventView> {
    Seq::new(failures.len(), |i: int| EventView::Resolved(Err(failures[i])))
}

/// The events by which the blockchain client fails, once for each of `failures`.
pub open spec fn fetch_failures(failures: Seq<CapabilityFailure>) -> Seq<EventView> {
    Seq::new(failures.len(), |i: int| EventView::Fetched(Err(failures[i])))
}

/// While the retries last, each failure of the resolver is answered by
/// another attempt: nothing is reported and the digest stays in flight.
pub proof fn lemma_resolver_is_asked_again(
    start: VerifierView,
    digest: Digest,
    retries: u32,
    failures: Seq<CapabilityFailure>,
)
    requires
        start.phase == Phase::Running || start.phase == Phase::Draining,
        start.stage == (StageView::Resolving { digest, retries }),
        retries + failures.len() <= start.policy.max_retries,
    ensures
        state_after(start, resolver_failures(failures)) == start.at(
            StageView::Resolving { digest, retries: (retries + failures.len()) as u32 },
        ),
        outcomes_of(start, resolver_failures(failures)) == Seq::<VerificationOutcome>::empty(),
    decreases failures.len(),
{
    if failures.len() == 0 {
        assert(resolver_failures(failures) =~= Seq::<EventView>::empty());
        assert(start.at(start.stage) == start);
    } else {
        let earlier = failures.drop_last();
        lemma_resolver_is_asked_again(start, digest, retries, earlier);
        let event = EventView::Resolved(Err(failures.last()));
        assert(resolver_failures(failures) =~= resolver_failures(earlier).push(event));
        lemma_run_one_more(start, resolver_failures(earlier), event);
    }
}

/// While the retries last, each failure of the blockchain client is answered
/// by another attempt: nothing is reported and the digest stays in flight.
pub proof fn lemma_fetch_is_asked_again(
    start: VerifierView,
    digest: Digest,
    inscription_id: Seq<char>,
    retries: u32,
    failures: Seq<CapabilityFailure>,
)
    requires
        start.phase == Phase::Running || start.phase == Phase::Draining,
        start.stage == (StageView::Fetching { digest, inscription_id, retries }),
        retries + failures.len() <= start.policy.max_retries,
    ensures
        state_after(start, fetch_failures(failures)) == start.at(
            StageView::Fetching {
                digest,
                inscription_id,
                retries: (retries + failures.len()) as u32,
            },
        ),
        outcomes_of(start, fetch_failures(failures)) == Seq::<VerificationOutcome>::empty(),
    decreases failures.len(),
{
    if failures.len() == 0 {
        assert(fetch_failures(failures) =~= Seq::<EventView>::empty());
        assert(start.at(start.stage) == start);
    } else {
        let earlier = failures.drop_last();
        lemma_fetch_is_asked_again(start, digest, inscription_id, retries, earlier);
        let event = EventView::Fetched(Err(failures.last()));
        assert(fetch_failures(failures) =~= fetch_failures(earlier).push(event));
        lemma_run_one_more(start, fetch_failures(earlier), event);
    }
}

/// What the collaborators answer while the pipeline works on one digest.
pub struct Round {
    /// The digest that the inbound channel delivers.
    pub digest: Digest,
    /// The failures of the resolver before its last answer.
    pub resolver_failures: Seq<CapabilityFailure>,
    /// The last answer of the resolver.
    pub resolved: Result<Seq<char>, CapabilityFailure>,
    /// The failures of the blockchain client before its last answer.
    pub fetch_failures: Seq<CapabilityFailure>,
    /// The last answer of the blockchain client.
    pub fetched: Result<Seq<u8>, CapabilityFailure>,
    /// The answer of the proof verifier.
    pub verdict: Result<bool, VerifierFailure>,
}

impl Round {
    /// The round is one that the pipeline can live through under `policy`:
    /// a collaborator is asked again after each failure but the last, and
    /// its last answer is a failure only when the retries are used up.
    pub open spec fn fits(self, policy: CallPolicy) -> bool {
        &&& self.resolver_failures.len() <= policy.max_retries
        &&& self.resolved is Err ==> self.resolver_failures.len() == policy.max_retries
        &&& self.resolved is Ok ==> {
            &&& self.fetch_failures.len() <= policy.max_retries
            &&& self.fetched is Err ==> self.fetch_failures.len() == policy.max_retries
        }
    }

    /// The blockchain client is asked only for what the resolver found.
    pub open spec fn retrieval(self) -> Seq<EventView> {
        if self.resolved is Ok {
            fetch_failures(self.fetch_failures) + seq![EventView::Fetched(self.fetched)]
        } else {
            Seq::empty()
        }
    }

    /// The proof verifier is asked only for a payload that was fetched and decodes.
    pub open spec fn reaches_verifier(self) -> bool {
        &&& self.resolved is Ok
        &&& self.fetched matches Ok(payload)
        &&& decode(payload) is Ok
    }

    /// The answer of the proof verifier, where it is asked.
    pub open spec fn judgement(self) -> Seq<EventView> {
        if self.reaches_verifier() {
            seq![EventView::Verified(self.verdict)]
        } else {
            Seq::empty()
        }
    }

    /// The events that answer the pipeline once it has taken the digest, up
    /// to the outbound channel taking the outcome.
    pub open spec fn answers(self) -> Seq<EventView> {
        resolver_failures(self.resolver_failures) + seq![EventView::Resolved(self.resolved)]
            + self.retrieval() + self.judgement() + seq![EventView::Emitted]
    }

    /// All events of the round: the digest, then the answers.
    pub open spec fn events(self) -> Seq<EventView> {
        seq![EventView::Digest(self.digest)] + self.answers()
    }

    /// What is to be reported for the digest: the first failure on its way,
    /// or the verdict on its proof.
    pub open spec fn result(self) -> Result<bool, VerificationError> {
        match self.resolved {
            Err(failure) => Err(VerificationError::ResolutionFailed(failure)),
            Ok(_) => match self.fetched {
                Err(failure) => Err(VerificationError::FetchFailed(failure)),
                Ok(payload) => match decode(payload) {
                    Err(defect) => Err(VerificationError::MalformedInscription(defect)),
                    Ok(_) => match self.verdict {
                        Err(failure) => Err(VerificationError::VerifierError(failure)),
                        Ok(valid) => Ok(valid),
                    },
                },
            },
        }
    }

    /// The outcome of the round.
    pub open spec fn outcome(self) -> VerificationOutcome {
        VerificationOutcome { digest: self.digest, result: self.result() }
    }
}

/// A digest in flight is reported exactly once, whatever the collaborators
/// answer: after the answers of its round the pipeline has reported the
/// round's outcome and nothing else; it then waits for the next digest if it
/// is running, and has stopped if it was draining.
pub proof fn lemma_digest_in_flight_is_reported(start: VerifierView, round: Round)
    requires
        start.phase == Phase::Running || start.phase == Phase::Draining,
        start.stage == (StageView::Resolving { digest: round.digest, retries: 0 }),
        round.fits(start.policy),
    ensures
        state_after(start, round.answers()) == if start.phase == Phase::Running {
            VerifierView::receiving(start.policy)
        } else {
            VerifierView::stopped(start.policy)
        },
        outcomes_of(start, round.answers()) == seq![round.outcome()],
{
    let digest = round.digest;
    let none = Seq::<VerificationOutcome>::empty();
    let emitting = start.at(StageView::Emitting { digest });

    // The resolver, asked until its last answer.
    let failed = resolver_failures(round.resolver_failures);
    let resolved = seq![EventView::Resolved(round.resolved)];
    lemma_resolver_is_asked_again(start, digest, 0, round.resolver_failures);
    let asked = state_after(start, failed);
    lemma_run_of_one(asked, EventView::Resolved(round.resolved));
    lemma_run_in_two_parts(start, failed, resolved);
    let first = failed + resolved;
    let after_resolver = state_after(start, first);
    assert(outcomes_of(start, first) =~= if round.resolved is Ok {
        none
    } else {
        seq![round.outcome()]
    });
    assert(after_resolver == match round.resolved {
        Ok(inscription_id) => start.at(
            StageView::Fetching { digest, inscription_id, retries: 0 },
        ),
        Err(_) => emitting,
    });

    // The blockchain client, asked until its last answer.
    let second = first + round.retrieval();
    lemma_run_in_two_parts(start, first, round.retrieval());
    let after_fetch = state_after(start, second);
    match round.resolved {
        Ok(inscription_id) => {
            let refused = fetch_failures(round.fetch_failures);
            let fetched = seq![EventView::Fetched(round.fetched)];
            lemma_fetch_is_asked_again(
                after_resolver,
                digest,
                inscription_id,
                0,
                round.fetch_failures,
            );
            lemma_run_of_one(state_after(after_resolver, refused), EventView::Fetched(round.fetched));
            lemma_run_in_two_parts(after_resolver, refused, fetched);
            assert(outcomes_of(after_resolver, round.retrieval()) =~= if round.reaches_verifier() {
                none
            } else {
                seq![round.outcome()]
            });
            assert(after_fetch == if round.reaches_verifier() {
                start.at(StageView::Verifying { digest })
            } else {
                emitting
            });
        },
        Err(_) => {
            assert(after_fetch == emitting);
            assert(outcomes_of(after_resolver, round.retrieval()) =~= none);
        },
    }
    assert(outcomes_of(start, second) =~= if round.reaches_verifier() {
        none
    } else {
        seq![round.outcome()]
    });

    // The proof verifier.
    let third = second + round.judgement();
    lemma_run_in_two_parts(start, second, round.judgement());
    if round.reaches_verifier() {
        lemma_run_of_one(after_fetch, EventView::Verified(round.verdict));
    }
    assert(state_after(start, third) == emitting);
    assert(outcomes_of(start, third) =~= seq![round.outcome()]);

    // The outbound channel.
    lemma_run_of_one(emitting, EventView::Emitted);
    lemma_run_in_two_parts(start, third, seq![EventView::Emitted]);
    assert(round.answers() == third + seq![EventView::Emitted]);
    assert(outcomes_of(start, round.answers()) =~= seq![round.outcome()]);
}

/// A running pipeline takes the digest of a round, reports the round's
/// outcome and nothing else, and waits for the next digest.
pub proof fn lemma_round_is_reported(policy: CallPolicy, round: Round)
    requires
        round.fits(policy),
    ensures
        state_after(VerifierView::receiving(policy), round.events()) == VerifierView::receiving(
            policy,
        ),
        outcomes_of(VerifierView::receiving(policy), round.events()) == seq![round.outcome()],
{
    let start = VerifierView::receiving(policy);
    let taken = seq![EventView::Digest(round.digest)];
    lemma_run_of_one(start, EventView::Digest(round.digest));
    lemma_digest_in_flight_is_reported(state_after(start, taken), round);
    lemma_run_in_two_parts(start, taken, round.answers());
    assert(outcomes_of(start, round.events()) =~= seq![round.outcome()]);
}

/// The events of `rounds`, one round after the other.
pub open spec fn events_of(rounds: Seq<Round>) -> Seq<EventView>
    decreases rounds.len(),
{
    if rounds.len() == 0 {
        Seq::empty()
    } else {
        events_of(rounds.drop_last()) + rounds.last().events()
    }
}

/// The outcomes of `rounds`, in their order.
pub open spec fn outcomes(rounds: Seq<Round>) -> Seq<VerificationOutcome> {
    Seq::new(rounds.len(), |i: int| rounds[i].outcome())
}

/// Every round fits the policy.
pub open spec fn all_fit(rounds: Seq<Round>, policy: CallPolicy) -> bool {
    forall|i: int| 0 <= i < rounds.len() ==> (#[trigger] rounds[i]).fits(policy)
}

/// Outcomes come one for each digest and in the order of the digests,
/// whatever the collaborators answer: a running pipeline that goes through
/// `rounds` reports exactly their outcomes, in their order, and then waits
/// for the next digest.
pub proof fn lemma_rounds_are_reported_in_order(policy: CallPolicy, rounds: Seq<Round>)
    requires
        all_fit(rounds, policy),
    ensures
        state_after(VerifierView::receiving(policy), events_of(rounds))
            == VerifierView::receiving(policy),
        outcomes_of(VerifierView::receiving(policy), events_of(rounds)) == outcomes(rounds),
    decreases rounds.len(),
{
    let start = VerifierView::receiving(policy);
    if rounds.len() == 0 {
        assert(outcomes(rounds) =~= Seq::<VerificationOutcome>::empty());
    } else {
        let earlier = rounds.drop_last();
        lemma_rounds_are_reported_in_order(policy, earlier);
        lemma_round_is_reported(policy, rounds.last());
        lemma_run_in_two_parts(start, events_of(earlier), rounds.last().events());
        assert(outcomes(earlier) + seq![rounds.last().outcome()] =~= outcomes(rounds));
    }
}

/// A pipeline that is started and then goes through `rounds` reports exactly
/// their outcomes, in their order.
pub proof fn lemma_started_pipeline_reports_rounds(policy: CallPolicy, rounds: Seq<Round>)
    requires
        all_fit(rounds, policy),
    ensures
        state_after(VerifierView::idle(policy), seq![EventView::Start] + events_of(rounds))
            == VerifierView::receiving(policy),
        outcomes_of(VerifierView::idle(policy), seq![EventView::Start] + events_of(rounds))
            == outcomes(rounds),
{
    let idle = VerifierView::idle(policy);
    lemma_run_of_one(idle, EventView::Start);
    lemma_rounds_are_reported_in_order(policy, rounds);
    lemma_run_in_two_parts(idle, seq![EventView::Start], events_of(rounds));
    assert(Seq::<VerificationOutcome>::empty() + outcomes(rounds) =~= outcomes(rounds));
}

/// Where the resolver and the blockchain client answer for every digest, the
/// payloads decode and the proof verifier finds every proof valid, the
/// pipeline reports one outcome for each digest, in the order of the
/// digests, and each says that the proof is valid.
pub proof fn lemma_valid_proofs_are_reported_in_order(policy: CallPolicy, rounds: Seq<Round>)
    requires
        all_fit(rounds, policy),
        forall|i: int|
            0 <= i < rounds.len() ==> (#[trigger] rounds[i]).reaches_verifier() && rounds[i].verdict
                == Ok::<bool, VerifierFailure>(true),
    ensures
        outcomes_of(VerifierView::idle(policy), seq![EventView::Start] + events_of(rounds))
            == Seq::new(
            rounds.len(),
            |i: int| VerificationOutcome { digest: rounds[i].digest, result: Ok(true) },
        ),
{
    lemma_started_pipeline_reports_rounds(policy, rounds);
    assert(outcomes(rounds) =~= Seq::new(
        rounds.len(),
        |i: int| VerificationOutcome { digest: rounds[i].digest, result: Ok(true) },
    ));
}

/// A digest for which the resolver gives no answer is reported as failed,
/// with the resolver's last failure, and the digests around it are reported
/// as if nothing had happened: the pipeline still reports one outcome for
/// each digest, in the order of the digests.
pub proof fn lemma_failed_resolution_is_reported(
    policy: CallPolicy,
    rounds: Seq<Round>,
    failed: int,
)
    requires
        all_fit(rounds, policy),
        0 <= failed < rounds.len(),
        rounds[failed].resolved is Err,
    ensures
        outcomes_of(VerifierView::idle(policy), seq![EventView::Start] + events_of(rounds)).len()
            == rounds.len(),
        outcomes_of(
            VerifierView::idle(policy),
            seq![EventView::Start] + events_of(rounds),
        )[failed] == (VerificationOutcome {
            digest: rounds[failed].digest,
            result: Err(VerificationError::ResolutionFailed(rounds[failed].resolved->Err_0)),
        }),
        forall|i: int|
            0 <= i < rounds.len() ==> (#[trigger] outcomes_of(
                VerifierView::idle(policy),
                seq![EventView::Start] + events_of(rounds),
            )[i]) == rounds[i].outcome(),
        state_after(VerifierView::idle(policy), seq![EventView::Start] + events_of(rounds))
            == VerifierView::receiving(policy),
{
    lemma_started_pipeline_reports_rounds(policy, rounds);
}

/// When the inbound channel is closed after any number of rounds, the
/// pipeline stops: it has reported the outcomes of those rounds and nothing
/// else, and the last thing it asks for is to stop.
pub proof fn lemma_closing_inbound_after_rounds_stops(policy: CallPolicy, rounds: Seq<Round>)
    requires
        all_fit(rounds, policy),
    ensures
        state_after(
            VerifierView::receiving(policy),
            events_of(rounds).push(EventView::InboundClosed),
        ) == VerifierView::stopped(policy),
        actions_of(
            VerifierView::receiving(policy),
            events_of(rounds).push(EventView::InboundClosed),
        ).last() == ActionView::Stop,
        outcomes_of(
            VerifierView::receiving(policy),
            events_of(rounds).push(EventView::InboundClosed),
        ) == outcomes(rounds),
{
    lemma_rounds_are_reported_in_order(policy, rounds);
    lemma_run_one_more(
        VerifierView::receiving(policy),
        events_of(rounds),
        EventView::InboundClosed,
    );
}

/// When the inbound channel is closed while a digest is in flight, the
/// pipeline drains: it asks for nothing new, and from then on each answer
/// moves the digest on as it would in a running pipeline, with the same
/// action, until the outbound channel has taken the outcome; then the
/// pipeline stops instead of waiting for another digest.
pub proof fn lemma_closing_inbound_in_flight_drains(running: VerifierView, event: EventView)
    requires
        running.phase == Phase::Running,
        !(running.stage is Receiving),
        !(event is InboundClosed),
        !(event is OutboundClosed),
    ensures
        running.next(EventView::InboundClosed) == (
            VerifierView { phase: Phase::Draining, ..running },
            ActionView::Continue,
        ),
        running.next(event).0.stage is Receiving ==> {
            &&& running.stage is Emitting
            &&& event is Emitted
            &&& (VerifierView { phase: Phase::Draining, ..running }).next(event) == (
                VerifierView::stopped(running.policy),
                ActionView::Stop,
            )
        },
        !(running.next(event).0.stage is Receiving) ==> (VerifierView {
            phase: Phase::Draining,
            ..running
        }).next(event) == (
            VerifierView { phase: Phase::Draining, ..running.next(event).0 },
            running.next(event).1,
        ),
{
}

/// The same pipeline, draining.
pub open spec fn draining(pipeline: VerifierView) -> VerifierView {
    VerifierView { phase: Phase::Draining, ..pipeline }
}

/// A running pipeline that goes through `events` from `start` has a digest
/// in flight all the way: at the start and before each of the events, and
/// none of them closes a channel.
pub open spec fn in_flight_throughout(start: VerifierView, events: Seq<EventView>) -> bool {
    &&& start.phase == Phase::Running
    &&& !(start.stage is Receiving)
    &&& forall|k: int|
        0 <= k < events.len() ==> !(#[trigger] state_after(start, events.take(k)).stage
            is Receiving)
    &&& forall|k: int|
        0 <= k < events.len() ==> !(#[trigger] events[k] is InboundClosed) && !(events[k]
            is OutboundClosed)
}

/// A draining pipeline completes the digest in flight as a running one
/// does: over events that keep a digest in flight it reports the same
/// outcomes, and it ends at the same stage, unless the running pipeline ends
/// waiting for the next digest; then the draining one has stopped.
pub proof fn lemma_draining_follows_running(start: VerifierView, events: Seq<EventView>)
    requires
        in_flight_throughout(start, events),
    ensures
        outcomes_of(draining(start), events) == outcomes_of(start, events),
        state_after(draining(start), events) == if state_after(start, events).stage is Receiving {
            VerifierView::stopped(start.policy)
        } else {
            draining(state_after(start, events))
        },
        state_after(start, events).phase == Phase::Running,
        state_after(start, events).policy == start.policy,
    decreases events.len(),
{
    if events.len() == 0 {
        assert(events.take(0) =~= events);
    } else {
        let earlier = events.drop_last();
        let event = events.last();
        assert forall|k: int| 0 <= k < earlier.len() implies !(#[trigger] state_after(
            start,
            earlier.take(k),
        ).stage is Receiving) by {
            assert(earlier.take(k) =~= events.take(k));
        }
        lemma_draining_follows_running(start, earlier);
        assert(events.take(events.len() - 1) =~= earlier);
        assert(events =~= earlier.push(event));
        assert(!(events[events.len() - 1] is InboundClosed));
        lemma_run_one_more(start, earlier, event);
        lemma_run_one_more(draining(start), earlier, event);
        lemma_closing_inbound_in_flight_drains(state_after(start, earlier), event);
    }
}

/// When the inbound channel is closed while a digest is in flight, at
/// whatever moment, the pipeline completes that digest as if the channel
/// were open, and then stops: over `before`, the closing of the channel and
/// `after` it reports what it reports over `before` and `after`, where these
/// keep a digest in flight until their last event, after which the running
/// pipeline waits for the next digest.
pub proof fn lemma_closing_inbound_at_any_moment_drains(
    start: VerifierView,
    before: Seq<EventView>,
    after: Seq<EventView>,
)
    requires
        in_flight_throughout(start, before + after),
        state_after(start, before + after).stage is Receiving,
        after.len() > 0,
    ensures
        state_after(start, before.push(EventView::InboundClosed) + after) == VerifierView::stopped(
            start.policy,
        ),
        outcomes_of(start, before.push(EventView::InboundClosed) + after) == outcomes_of(
            start,
            before + after,
        ),
{
    let events = before + after;
    let middle = state_after(start, before);
    assert(events.take(before.len() as int) =~= before);
    assert(!(middle.stage is Receiving));

    // Up to the closing of the channel the pipeline runs.
    assert forall|k: int| 0 <= k < before.len() implies !(#[trigger] state_after(
        start,
        before.take(k),
    ).stage is Receiving) by {
        assert(before.take(k) =~= events.take(k));
    }
    assert forall|k: int| 0 <= k < before.len() implies !(#[trigger] before[k] is InboundClosed)
        && !(before[k] is OutboundClosed) by {
        assert(before[k] == events[k]);
    }
    lemma_draining_follows_running(start, before);
    lemma_run_one_more(start, before, EventView::InboundClosed);
    let closed = before.push(EventView::InboundClosed);
    assert(state_after(start, closed) == draining(middle));
    assert(outcomes_of(start, closed) == outcomes_of(start, before));

    // From there on it drains.
    lemma_run_in_two_parts(start, before, after);
    assert forall|k: int| 0 <= k < after.len() implies !(#[trigger] state_after(
        middle,
        after.take(k),
    ).stage is Receiving) by {
        lemma_run_in_two_parts(start, before, after.take(k));
        assert(before + after.take(k) =~= events.take(before.len() + k));
    }
    assert forall|k: int| 0 <= k < after.len() implies !(#[trigger] after[k] is InboundClosed)
        && !(after[k] is OutboundClosed) by {
        assert(after[k] == events[before.len() + k]);
    }
    lemma_draining_follows_running(middle, after);
    lemma_run_in_two_parts(start, closed, after);
}

/// The event is the answer of a collaborator.
pub open spec fn is_answer(event: EventView) -> bool {
    event is Resolved || event is Fetched || event is Verified
}

/// The answers of the collaborators never end the work on a digest: a
/// running pipeline with a digest in flight still has one in flight after
/// any number of them.
pub proof fn lemma_answers_keep_digest_in_flight(start: VerifierView, events: Seq<EventView>)
    requires
        start.phase == Phase::Running,
        !(start.stage is Receiving),
        forall|k: int| 0 <= k < events.len() ==> is_answer(#[trigger] events[k]),
    ensures
        state_after(start, events).phase == Phase::Running,
        !(state_after(start, events).stage is Receiving),
    decreases events.len(),
{
    if events.len() > 0 {
        lemma_answers_keep_digest_in_flight(start, events.drop_last());
    }
}

/// In a round the digest is in flight until the outbound channel has taken
/// its outcome, which is the last event of the round.
pub proof fn lemma_round_keeps_digest_in_flight(policy: CallPolicy, round: Round)
    requires
        round.fits(policy),
    ensures
        in_flight_throughout(
            VerifierView::receiving(policy).at(
                StageView::Resolving { digest: round.digest, retries: 0 },
            ),
            round.answers(),
        ),
        round.answers().len() > 0,
        round.answers().last() == EventView::Emitted,
{
    let start = VerifierView::receiving(policy).at(
        StageView::Resolving { digest: round.digest, retries: 0 },
    );
    let answers = round.answers();
    let failed = resolver_failures(round.resolver_failures);
    let resolved = seq![EventView::Resolved(round.resolved)];
    assert(forall|k: int| 0 <= k < failed.len() ==> is_answer(#[trigger] failed[k]));
    assert(forall|k: int| 0 <= k < resolved.len() ==> is_answer(#[trigger] resolved[k]));
    assert(forall|k: int|
        0 <= k < round.retrieval().len() ==> is_answer(#[trigger] round.retrieval()[k]));
    assert(forall|k: int|
        0 <= k < round.judgement().len() ==> is_answer(#[trigger] round.judgement()[k]));
    let body = failed + resolved + round.retrieval() + round.judgement();
    assert(forall|k: int| 0 <= k < body.len() ==> is_answer(#[trigger] body[k]));
    assert(answers =~= body.push(EventView::Emitted));
    assert forall|k: int| 0 <= k < answers.len() implies !(#[trigger] state_after(
        start,
        answers.take(k),
    ).stage is Receiving) by {
        assert(answers.take(k) =~= body.take(k));
        lemma_answers_keep_digest_in_flight(start, body.take(k));
    }
}

/// When the inbound channel is closed at whatever moment of a round after
/// its digest was taken, the pipeline completes the round and stops: it
/// reports the round's outcome and nothing else.
pub proof fn lemma_draining_completes_round(policy: CallPolicy, round: Round, moment: int)
    requires
        round.fits(policy),
        0 <= moment < round.answers().len(),
    ensures
        state_after(
            VerifierView::receiving(policy),
            (seq![EventView::Digest(round.digest)] + round.answers().take(moment)).push(
                EventView::InboundClosed,
            ) + round.answers().skip(moment),
        ) == VerifierView::stopped(policy),
        outcomes_of(
            VerifierView::receiving(policy),
            (seq![EventView::Digest(round.digest)] + round.answers().take(moment)).push(
                EventView::InboundClosed,
            ) + round.answers().skip(moment),
        ) == seq![round.outcome()],
{
    let idle = VerifierView::receiving(policy);
    let taken = seq![EventView::Digest(round.digest)];
    let start = idle.at(StageView::Resolving { digest: round.digest, retries: 0 });
    let before = round.answers().take(moment);
    let after = round.answers().skip(moment);
    assert(before + after =~= round.answers());
    lemma_run_of_one(idle, EventView::Digest(round.digest));
    lemma_round_keeps_digest_in_flight(policy, round);
    lemma_digest_in_flight_is_reported(start, round);
    lemma_closing_inbound_at_any_moment_drains(start, before, after);
    let rest = before.push(EventView::InboundClosed) + after;
    lemma_run_in_two_parts(idle, taken, rest);
    assert((taken + before).push(EventView::InboundClosed) + after =~= taken + rest);
    assert(outcomes_of(idle, taken + rest) =~= seq![round.outcome()]);
}

/// When the inbound channel is closed after any number of rounds and at
/// whatever moment of one more, the pipeline completes that round and stops:
/// it has reported the outcomes of all these rounds, in their order, and
/// nothing else.
pub proof fn lemma_closing_inbound_during_round_stops(
    policy: CallPolicy,
    rounds: Seq<Round>,
    round: Round,
    moment: int,
)
    requires
        all_fit(rounds, policy),
        round.fits(policy),
        0 <= moment < round.answers().len(),
    ensures
        state_after(
            VerifierView::receiving(policy),
            events_of(rounds) + ((seq![EventView::Digest(round.digest)] + round.answers().take(
                moment,
            )).push(EventView::InboundClosed) + round.answers().skip(moment)),
        ) == VerifierView::stopped(policy),
        outcomes_of(
            VerifierView::receiving(policy),
            events_of(rounds) + ((seq![EventView::Digest(round.digest)] + round.answers().take(
                moment,
            )).push(EventView::InboundClosed) + round.answers().skip(moment)),
        ) == outcomes(rounds).push(round.outcome()),
{
    let start = VerifierView::receiving(policy);
    let last = (seq![EventView::Digest(round.digest)] + round.answers().take(moment)).push(
        EventView::InboundClosed,
    ) + round.answers().skip(moment);
    lemma_rounds_are_reported_in_order(policy, rounds);
    lemma_draining_completes_round(policy, round, moment);
    lemma_run_in_two_parts(start, events_of(rounds), last);
    assert(outcomes(rounds) + seq![round.outcome()] =~= outcomes(rounds).push(round.outcome()));
}

/// A digest is taken by a running pipeline only: an idle, draining or
/// stopped one is left as it was by a digest, and asks for nothing.
pub proof fn lemma_digest_is_taken_only_when_running(pipeline: VerifierView, digest: Digest)
    requires
        pipeline.phase != Phase::Running,
    ensures
        pipeline.next(EventView::Digest(digest)).0 == pipeline,
        pipeline.next(EventView::Digest(digest)).1 == if pipeline.phase == Phase::Stopped {
            ActionView::Stop
        } else {
            ActionView::Continue
        },
{
}

/// Once the inbound channel is closed the pipeline takes no further input:
/// whatever events follow, a draining or stopped pipeline is never running
/// again, and never asks for another digest.
pub proof fn lemma_closed_pipeline_takes_no_input(start: VerifierView, events: Seq<EventView>)
    requires
        start.phase == Phase::Draining || start.phase == Phase::Stopped,
    ensures
        state_after(start, events).phase == Phase::Draining || state_after(start, events).phase
            == Phase::Stopped,
        forall|i: int|
            0 <= i < events.len() ==> (#[trigger] actions_of(start, events)[i])
                != ActionView::Receive,
        actions_of(start, events).len() == events.len(),
    decreases events.len(),
{
    if events.len() > 0 {
        lemma_closed_pipeline_takes_no_input(start, events.drop_last());
    }
}

/// A stopped pipeline stays stopped: whatever events follow, it reports
/// nothing and asks only to stop.
pub proof fn lemma_stopped_pipeline_stays_stopped(start: VerifierView, events: Seq<EventView>)
    requires
        start.phase == Phase::Stopped,
    ensures
        state_after(start, events) == start,
        forall|i: int|
            0 <= i < events.len() ==> (#[trigger] actions_of(start, events)[i])
                == ActionView::Stop,
        actions_of(start, events).len() == events.len(),
        outcomes_of(start, events) == Seq::<VerificationOutcome>::empty(),
    decreases events.len(),
{
    if events.len() > 0 {
        lemma_stopped_pipeline_stays_stopped(start, events.drop_last());
        assert(events =~= events.drop_last().push(events.last()));
        lemma_run_one_more(start, events.drop_last(), events.last());
    }
}

/// When the outbound channel is closed the pipeline stops at once, whether
/// a digest is in flight or not.
pub proof fn lemma_closing_outbound_stops(pipeline: VerifierView)
    requires
        pipeline.phase == Phase::Running || pipeline.phase == Phase::Draining,
    ensures
        pipeline.next(EventView::OutboundClosed) == (
            VerifierView::stopped(pipeline.policy),
            ActionView::Stop,
        ),
{
}

/// The pipeline takes a digest from the inbound channel only while it is
/// running and has none in flight.
pub open spec fn takes_digest(pipeline: VerifierView, event: EventView) -> bool {
    &&& pipeline.phase == Phase::Running
    &&& pipeline.stage is Receiving
    &&& event is Digest
}

/// The digests that the pipeline takes while it goes through `events` from
/// `start`, in their order.
pub open spec fn digests_taken(start: VerifierView, events: Seq<EventView>) -> Seq<Digest>
    decreases events.len(),
{
    if events.len() == 0 {
        Seq::empty()
    } else if takes_digest(state_after(start, events.drop_last()), events.last()) {
        digests_taken(start, events.drop_last()).push(events.last()->Digest_0)
    } else {
        digests_taken(start, events.drop_last())
    }
}

/// The digests of `outcomes`, in their order.
pub open spec fn digests_of(outcomes: Seq<VerificationOutcome>) -> Seq<Digest> {
    Seq::new(outcomes.len(), |i: int| outcomes[i].digest)
}

/// The digest that the pipeline is still to report, if there is one.
pub open spec fn digest_owed(pipeline: VerifierView) -> Option<Digest> {
    match pipeline.stage {
        StageView::Resolving { digest, .. } => Some(digest),
        StageView::Fetching { digest, .. } => Some(digest),
        StageView::Verifying { digest } => Some(digest),
        _ => None,
    }
}

/// What links the digests taken to the digests reported at every moment of a
/// run: the reported ones are the taken ones, but for the one that is owed.
pub open spec fn accounts_for(
    pipeline: VerifierView,
    taken: Seq<Digest>,
    reported: Seq<Digest>,
) -> bool {
    &&& pipeline.wf()
    &&& match digest_owed(pipeline) {
        Some(digest) => taken == reported.push(digest),
        None => if pipeline.phase == Phase::Stopped {
            taken == reported || (taken.len() > 0 && taken.drop_last() == reported)
        } else {
            taken == reported
        },
    }
}

/// Each digest is reported at most once and in the order in which the
/// digests were taken, whatever events the pipeline is given: at every
/// moment the digests of the outcomes reported so far are the digests taken
/// so far, one after the other, but for the last one, which may still be in
/// flight or may have been given up when the outbound channel was closed.
pub proof fn lemma_outcomes_follow_digests_taken(policy: CallPolicy, events: Seq<EventView>)
    ensures
        accounts_for(
            state_after(VerifierView::idle(policy), events),
            digests_taken(VerifierView::idle(policy), events),
            digests_of(outcomes_of(VerifierView::idle(policy), events)),
        ),
        digests_of(outcomes_of(VerifierView::idle(policy), events)).len() <= digests_taken(
            VerifierView::idle(policy),
            events,
        ).len() <= digests_of(outcomes_of(VerifierView::idle(policy), events)).len() + 1,
        forall|i: int|
            0 <= i < outcomes_of(VerifierView::idle(policy), events).len() ==> (
            #[trigger] outcomes_of(VerifierView::idle(policy), events)[i]).digest == digests_taken(
                VerifierView::idle(policy),
                events,
            )[i],
    decreases events.len(),
{
    let start = VerifierView::idle(policy);
    let taken = digests_taken(start, events);
    let reported = digests_of(outcomes_of(start, events));
    if events.len() == 0 {
        assert(reported =~= Seq::<Digest>::empty());
    } else {
        let earlier = events.drop_last();
        let event = events.last();
        lemma_outcomes_follow_digests_taken(policy, earlier);
        assert(events =~= earlier.push(event));
        lemma_run_one_more(start, earlier, event);
        let before = state_after(start, earlier);
        let reported_before = digests_of(outcomes_of(start, earlier));
        lemma_next_keeps_well_formed(before, event);
        match before.next(event).1 {
            ActionView::Emit(outcome) => {
                assert(reported =~= reported_before.push(outcome.digest));
            },
            _ => {
                assert(reported =~= reported_before);
            },
        }
        match digest_owed(before) {
            Some(digest) => {
                assert(reported_before.push(digest).drop_last() =~= reported_before);
            },
            None => {},
        }
    }
    assert forall|i: int| 0 <= i < outcomes_of(start, events).len() implies (
    #[trigger] outcomes_of(start, events)[i]).digest == taken[i] by {
        assert(reported[i] == outcomes_of(start, events)[i].digest);
    }
}

} // verus!
