//! The verification pipeline as a state machine. For each block digest it
//! asks, in turn, for the inscription identifier, for the inscription
//! payload and for the verdict on the proof that the payload carries, and
//! reports one outcome. The caller performs each action and hands back the
//! event that answers it.

use crate::digest::Digest;
use crate::error::CapabilityFailure;
use crate::error::VerificationError;
use crate::error::VerifierFailure;
use crate::sov_coin::decode;
use crate::sov_coin::DABlock;
use vstd::prelude::*;

verus! {

/// Number of digests, and of outcomes, that a channel of the pipeline holds
/// before the sender has to wait.
pub const CHANNEL_CAPACITY: usize = 1000;

/// What the pipeline reports for one digest: `Ok(true)` for a valid proof,
/// `Ok(false)` for an invalid one, `Err` where the proof could not be checked.
#[derive(Clone, Copy, Debug, PartialEq, Eq)]
pub struct VerificationOutcome {
    pub digest: Digest,
    pub result: Result<bool, VerificationError>,
}

/// How the pipeline calls its collaborators: how often a failed call to the
/// resolver or to the blockchain client is repeated, how long the pipeline
/// waits before each repetition, and how long a call may take.
#[derive(Clone, Copy, Debug, PartialEq, Eq)]
pub struct CallPolicy {
    /// Repetitions after the first failure; 0 gives up at once.
    pub max_retries: u32,
    /// Wait before the first repetition, in milliseconds; it doubles with each further one.
    pub base_delay_ms: u64,
    /// Upper bound of every wait, in milliseconds.
    pub max_delay_ms: u64,
    /// Time that a call may take, in milliseconds; a call that takes longer
    /// counts as failed with `Timeout`.
    pub timeout_ms: u64,
}

/// 2 to the power `exponent`.
pub open spec fn pow2(exponent: nat) -> nat
    decreases exponent,
{
    if exponent == 0 {
        1
    } else {
        2 * pow2((exponent - 1) as nat)
    }
}

impl CallPolicy {
    /// The wait before repetition number `retry` (counted from 0):
    /// `base_delay_ms` doubled `retry` times, at most `max_delay_ms`.
    pub open spec fn delay(self, retry: nat) -> int {
        if self.base_delay_ms * pow2(retry) <= self.max_delay_ms {
            self.base_delay_ms * pow2(retry)
        } else {
            self.max_delay_ms as int
        }
    }

    /// The wait in milliseconds before repetition number `retry`, counted from 0.
    pub fn delay_ms(&self, retry: u32) -> (wait: u64)
        ensures
            wait == self.delay(retry as nat),
            wait <= self.max_delay_ms,
    {
        if self.base_delay_ms > self.max_delay_ms {
            proof {
                lemma_pow2_grows(0, retry as nat);
                lemma_mul_monotone(self.base_delay_ms as nat, 1, pow2(retry as nat));
            }
            return self.max_delay_ms;
        }
        if self.base_delay_ms == 0 {
            proof {
                lemma_mul_zero(pow2(retry as nat));
            }
            return 0;
        }
        let mut wait: u64 = self.base_delay_ms;
        let mut doubled: u32 = 0;
        assert(pow2(0) == 1);
        while doubled < retry
            invariant
                doubled <= retry,
                wait == self.base_delay_ms * pow2(doubled as nat),
                wait <= self.max_delay_ms,
            decreases retry - doubled,
        {
            proof {
                assert(self.base_delay_ms * pow2((doubled + 1) as nat) == 2 * wait)
                    by (nonlinear_arith)
                    requires
                        wait == self.base_delay_ms * pow2(doubled as nat),
                        pow2((doubled + 1) as nat) == 2 * pow2(doubled as nat),
                ;
            }
            if wait > self.max_delay_ms - wait {
                proof {
                    lemma_pow2_grows((doubled + 1) as nat, retry as nat);
                    lemma_mul_monotone(
                        self.base_delay_ms as nat,
                        pow2((doubled + 1) as nat),
                        pow2(retry as nat),
                    );
                }
                return self.max_delay_ms;
            }
            wait = wait + wait;
            doubled = doubled + 1;
        }
        wait
    }
}

/// The life of a pipeline.
#[derive(Clone, Copy, Debug, PartialEq, Eq, Structural)]
pub enum Phase {
    /// Built, not started yet.
    Idle,
    /// Accepting digests.
    Running,
    /// The inbound channel is closed; the digest in flight is still completed.
    Draining,
    /// At rest for good.
    Stopped,
}

/// How far the digest in flight has come.
#[derive(Debug, PartialEq, Eq)]
pub enum Stage {
    /// No digest is in flight.
    Receiving,
    /// The resolver has been asked; `retries` repetitions so far.
    Resolving { digest: Digest, retries: u32 },
    /// The blockchain client has been asked; `retries` repetitions so far.
    Fetching { digest: Digest, inscription_id: String, retries: u32 },
    /// The proof verifier has been asked.
    Verifying { digest: Digest },
    /// The outcome has been handed to the outbound channel.
    Emitting { digest: Digest },
}

/// A stage with its inscription identifier as a sequence of characters.
pub enum StageView {
    Receiving,
    Resolving { digest: Digest, retries: u32 },
    Fetching { digest: Digest, inscription_id: Seq<char>, retries: u32 },
    Verifying { digest: Digest },
    Emitting { digest: Digest },
}

impl View for Stage {
    type V = StageView;

    open spec fn view(&self) -> StageView {
        match self {
            Stage::Receiving => StageView::Receiving,
            Stage::Resolving { digest, retries } => StageView::Resolving {
                digest: *digest,
                retries: *retries,
            },
            Stage::Fetching { digest, inscription_id, retries } => StageView::Fetching {
                digest: *digest,
                inscription_id: inscription_id@,
                retries: *retries,
            },
            Stage::Verifying { digest } => StageView::Verifying { digest: *digest },
            Stage::Emitting { digest } => StageView::Emitting { digest: *digest },
        }
    }
}

/// What the caller reports back to the pipeline.
#[derive(Debug, PartialEq, Eq)]
pub enum Event {
    /// The pipeline is to start.
    Start,
    /// The inbound channel delivered a digest.
    Digest(Digest),
    /// The inbound channel is closed for good.
    InboundClosed,
    /// The resolver answered with an inscription identifier, or failed.
    Resolved(Result<String, CapabilityFailure>),
    /// The blockchain client answered with an inscription payload, or failed.
    Fetched(Result<Vec<u8>, CapabilityFailure>),
    /// The proof verifier answered with its verdict, or failed.
    Verified(Result<bool, VerifierFailure>),
    /// The outbound channel took the outcome.
    Emitted,
    /// The outbound channel has lost its consumer.
    OutboundClosed,
}

/// An event with its strings and byte vectors as sequences.
pub enum EventView {
    Start,
    Digest(Digest),
    InboundClosed,
    Resolved(Result<Seq<char>, CapabilityFailure>),
    Fetched(Result<Seq<u8>, CapabilityFailure>),
    Verified(Result<bool, VerifierFailure>),
    Emitted,
    OutboundClosed,
}

impl View for Event {
    type V = EventView;

    open spec fn view(&self) -> EventView {
        match self {
            Event::Start => EventView::Start,
            Event::Digest(digest) => EventView::Digest(*digest),
            Event::InboundClosed => EventView::InboundClosed,
            Event::Resolved(Ok(inscription_id)) => EventView::Resolved(Ok(inscription_id@)),
            Event::Resolved(Err(failure)) => EventView::Resolved(Err(*failure)),
            Event::Fetched(Ok(payload)) => EventView::Fetched(Ok(payload@)),
            Event::Fetched(Err(failure)) => EventView::Fetched(Err(*failure)),
            Event::Verified(answer) => EventView::Verified(*answer),
            Event::Emitted => EventView::Emitted,
            Event::OutboundClosed => EventView::OutboundClosed,
        }
    }
}

/// What the pipeline asks the caller to do next.
#[derive(Debug, PartialEq, Eq)]
pub enum Action {
    /// Nothing new: what is outstanding stays outstanding.
    Continue,
    /// Wait for the next digest on the inbound channel.
    Receive,
    /// Wait `delay_ms` milliseconds, then ask the resolver for the
    /// inscription identifier that belongs to `digest`.
    Resolve { digest: Digest, delay_ms: u64 },
    /// Wait `delay_ms` milliseconds, then ask the blockchain client for the
    /// payload of the inscription `inscription_id`.
    Fetch { inscription_id: String, delay_ms: u64 },
    /// Ask the proof verifier for its verdict.
    Verify { proof: Vec<u8>, public_inputs: Vec<u8> },
    /// Hand the outcome to the outbound channel.
    Emit(VerificationOutcome),
    /// Stop: the pipeline is at rest for good.
    Stop,
}

/// An action with its strings and byte vectors as sequences.
pub enum ActionView {
    Continue,
    Receive,
    Resolve { digest: Digest, delay_ms: u64 },
    Fetch { inscription_id: Seq<char>, delay_ms: u64 },
    Verify { proof: Seq<u8>, public_inputs: Seq<u8> },
    Emit(VerificationOutcome),
    Stop,
}

impl View for Action {
    type V = ActionView;

    open spec fn view(&self) -> ActionView {
        match self {
            Action::Continue => ActionView::Continue,
            Action::Receive => ActionView::Receive,
            Action::Resolve { digest, delay_ms } => ActionView::Resolve {
                digest: *digest,
                delay_ms: *delay_ms,
            },
            Action::Fetch { inscription_id, delay_ms } => ActionView::Fetch {
                inscription_id: inscription_id@,
                delay_ms: *delay_ms,
            },
            Action::Verify { proof, public_inputs } => ActionView::Verify {
                proof: proof@,
                public_inputs: public_inputs@,
            },
            Action::Emit(outcome) => ActionView::Emit(*outcome),
            Action::Stop => ActionView::Stop,
        }
    }
}

/// The pipeline: its retry policy, its phase and the stage of the digest in flight.
#[derive(Debug, PartialEq, Eq)]
pub struct Verifier {
    policy: CallPolicy,
    phase: Phase,
    stage: Stage,
}

/// A pipeline with the stage as its view.
pub struct VerifierView {
    pub policy: CallPolicy,
    pub phase: Phase,
    pub stage: StageView,
}

impl View for Verifier {
    type V = VerifierView;

    closed spec fn view(&self) -> VerifierView {
        VerifierView { policy: self.policy, phase: self.phase, stage: self.stage@ }
    }
}

impl VerifierView {
    /// The pipeline before it is started.
    pub open spec fn idle(policy: CallPolicy) -> VerifierView {
        VerifierView { policy, phase: Phase::Idle, stage: StageView::Receiving }
    }

    /// The pipeline while it waits for the next digest.
    pub open spec fn receiving(policy: CallPolicy) -> VerifierView {
        VerifierView { policy, phase: Phase::Running, stage: StageView::Receiving }
    }

    /// The pipeline at rest for good.
    pub open spec fn stopped(policy: CallPolicy) -> VerifierView {
        VerifierView { policy, phase: Phase::Stopped, stage: StageView::Receiving }
    }

    /// What holds of every pipeline that was built idle and has taken events
    /// since: an idle or stopped one has no digest in flight, a draining one
    /// has one, and no call was repeated more often than the policy allows.
    pub open spec fn wf(self) -> bool {
        &&& self.phase == Phase::Idle || self.phase == Phase::Stopped ==> self.stage is Receiving
        &&& self.phase == Phase::Draining ==> !(self.stage is Receiving)
        &&& self.stage matches StageView::Resolving { retries, .. } ==> retries
            <= self.policy.max_retries
        &&& self.stage matches StageView::Fetching { retries, .. } ==> retries
            <= self.policy.max_retries
    }

    /// The same pipeline at another stage.
    pub open spec fn at(self, stage: StageView) -> VerifierView {
        VerifierView { stage, ..self }
    }

    /// The step after the outcome `result` for `digest` is known: it is emitted.
    pub open spec fn report(
        self,
        digest: Digest,
        result: Result<bool, VerificationError>,
    ) -> (VerifierView, ActionView) {
        (
            self.at(StageView::Emitting { digest }),
            ActionView::Emit(VerificationOutcome { digest, result }),
        )
    }

    /// The step for an event that answers what is outstanding for the digest
    /// in flight, in a pipeline that is running or draining.
    pub open spec fn advance(self, event: EventView) -> (VerifierView, ActionView) {
        match (self.stage, event) {
            (StageView::Receiving, EventView::Digest(digest)) => {
                if self.phase == Phase::Running {
                    (
                        self.at(StageView::Resolving { digest, retries: 0 }),
                        ActionView::Resolve { digest, delay_ms: 0 },
                    )
                } else {
                    (self, ActionView::Continue)
                }
            },
            (StageView::Resolving { digest, retries }, EventView::Resolved(Ok(inscription_id))) => (
                self.at(StageView::Fetching { digest, inscription_id, retries: 0 }),
                ActionView::Fetch { inscription_id, delay_ms: 0 },
            ),
            (StageView::Resolving { digest, retries }, EventView::Resolved(Err(failure))) => {
                if retries < self.policy.max_retries {
                    (
                        self.at(StageView::Resolving { digest, retries: (retries + 1) as u32 }),
                        ActionView::Resolve {
                            digest,
                            delay_ms: self.policy.delay(retries as nat) as u64,
                        },
                    )
                } else {
                    self.report(digest, Err(VerificationError::ResolutionFailed(failure)))
                }
            },
            (
                StageView::Fetching { digest, inscription_id, retries },
                EventView::Fetched(Ok(payload)),
            ) => match decode(payload) {
                Ok(block) => (
                    self.at(StageView::Verifying { digest }),
                    ActionView::Verify { proof: block.proof, public_inputs: block.pub_inputs },
                ),
                Err(defect) => self.report(
                    digest,
                    Err(VerificationError::MalformedInscription(defect)),
                ),
            },
            (
                StageView::Fetching { digest, inscription_id, retries },
                EventView::Fetched(Err(failure)),
            ) => {
                if retries < self.policy.max_retries {
                    (
                        self.at(
                            StageView::Fetching {
                                digest,
                                inscription_id,
                                retries: (retries + 1) as u32,
                            },
                        ),
                        ActionView::Fetch {
                            inscription_id,
                            delay_ms: self.policy.delay(retries as nat) as u64,
                        },
                    )
                } else {
                    self.report(digest, Err(VerificationError::FetchFailed(failure)))
                }
            },
            (StageView::Verifying { digest }, EventView::Verified(Ok(valid))) => self.report(
                digest,
                Ok(valid),
            ),
            (StageView::Verifying { digest }, EventView::Verified(Err(failure))) => self.report(
                digest,
                Err(VerificationError::VerifierError(failure)),
            ),
            (StageView::Emitting { digest }, EventView::Emitted) => {
                if self.phase == Phase::Running {
                    (self.at(StageView::Receiving), ActionView::Receive)
                } else {
                    (VerifierView::stopped(self.policy), ActionView::Stop)
                }
            },
            _ => (self, ActionView::Continue),
        }
    }

    /// The pipeline after `event`, and what it asks for next.
    ///
    /// A stopped pipeline stays stopped. An idle one waits for `Start`. A
    /// running or draining one stops as soon as the outbound channel is
    /// closed; when the inbound channel is closed it stops if no digest is in
    /// flight and drains otherwise; any other event advances the digest in
    /// flight if it answers what is outstanding, and changes nothing if not.
    pub open spec fn next(self, event: EventView) -> (VerifierView, ActionView) {
        match self.phase {
            Phase::Stopped => (self, ActionView::Stop),
            Phase::Idle => match event {
                EventView::Start => (VerifierView { phase: Phase::Running, ..self }, ActionView::Receive),
                _ => (self, ActionView::Continue),
            },
            _ => match event {
                EventView::OutboundClosed => (VerifierView::stopped(self.policy), ActionView::Stop),
                EventView::InboundClosed => {
                    if self.stage is Receiving {
                        (VerifierView::stopped(self.policy), ActionView::Stop)
                    } else {
                        (VerifierView { phase: Phase::Draining, ..self }, ActionView::Continue)
                    }
                },
                _ => self.advance(event),
            },
        }
    }
}

/// No event changes the policy, and none leads out of the well-formed pipelines.
pub proof fn lemma_next_keeps_well_formed(pipeline: VerifierView, event: EventView)
    ensures
        pipeline.next(event).0.policy == pipeline.policy,
        pipeline.wf() ==> pipeline.next(event).0.wf(),
{
}

impl Verifier {
    /// A pipeline that has not been started.
    pub fn new(policy: CallPolicy) -> (pipeline: Verifier)
        ensures
            pipeline@ == VerifierView::idle(policy),
            pipeline@.wf(),
    {
        Verifier { policy, phase: Phase::Idle, stage: Stage::Receiving }
    }

    /// The policy that the pipeline was built with.
    pub fn policy(&self) -> (policy: CallPolicy)
        ensures
            policy == self@.policy,
    {
        self.policy
    }

    /// The phase that the pipeline is in.
    pub fn phase(&self) -> (phase: Phase)
        ensures
            phase == self@.phase,
    {
        self.phase
    }

    fn stopped(policy: CallPolicy) -> (pipeline: Verifier)
        ensures
            pipeline@ == VerifierView::stopped(policy),
    {
        Verifier { policy, phase: Phase::Stopped, stage: Stage::Receiving }
    }

    fn report(
        policy: CallPolicy,
        phase: Phase,
        digest: Digest,
        result: Result<bool, VerificationError>,
    ) -> (step: (Verifier, Action))
        ensures
            step.0@ == (VerifierView { policy, phase, stage: StageView::Emitting { digest } }),
            step.1@ == ActionView::Emit(VerificationOutcome { digest, result }),
    {
        (
            Verifier { policy, phase, stage: Stage::Emitting { digest } },
            Action::Emit(VerificationOutcome { digest, result }),
        )
    }

    fn advance(self, event: Event) -> (step: (Verifier, Action))
        requires
            self@.phase == Phase::Running || self@.phase == Phase::Draining,
        ensures
            (step.0@, step.1@) == self@.advance(event@),
    {
        let policy = self.policy;
        let phase = self.phase;
        match (self.stage, event) {
            (Stage::Receiving, Event::Digest(digest)) => {
                match phase {
                    Phase::Running => (
                        Verifier { policy, phase, stage: Stage::Resolving { digest, retries: 0 } },
                        Action::Resolve { digest, delay_ms: 0 },
                    ),
                    _ => (Verifier { policy, phase, stage: Stage::Receiving }, Action::Continue),
                }
            },
            (Stage::Resolving { digest, retries }, Event::Resolved(Ok(inscription_id))) => {
                let wanted = inscription_id.clone();
                (
                    Verifier {
                        policy,
                        phase,
                        stage: Stage::Fetching { digest, inscription_id, retries: 0 },
                    },
                    Action::Fetch { inscription_id: wanted, delay_ms: 0 },
                )
            },
            (Stage::Resolving { digest, retries }, Event::Resolved(Err(failure))) => {
                if retries < policy.max_retries {
                    let delay_ms = policy.delay_ms(retries);
                    (
                        Verifier {
                            policy,
                            phase,
                            stage: Stage::Resolving { digest, retries: retries + 1 },
                        },
                        Action::Resolve { digest, delay_ms },
                    )
                } else {
                    Verifier::report(
                        policy,
                        phase,
                        digest,
                        Err(VerificationError::ResolutionFailed(failure)),
                    )
                }
            },
            (Stage::Fetching { digest, inscription_id, retries }, Event::Fetched(Ok(payload))) => {
                match DABlock::from_inscription(payload.as_slice()) {
                    Ok(block) => (
                        Verifier { policy, phase, stage: Stage::Verifying { digest } },
                        Action::Verify { proof: block.proof, public_inputs: block.pub_inputs },
                    ),
                    Err(defect) => Verifier::report(
                        policy,
                        phase,
                        digest,
                        Err(VerificationError::MalformedInscription(defect)),
                    ),
                }
            },
            (Stage::Fetching { digest, inscription_id, retries }, Event::Fetched(Err(failure))) => {
                if retries < policy.max_retries {
                    let delay_ms = policy.delay_ms(retries);
                    let wanted = inscription_id.clone();
                    (
                        Verifier {
                            policy,
                            phase,
                            stage: Stage::Fetching { digest, inscription_id, retries: retries + 1 },
                        },
                        Action::Fetch { inscription_id: wanted, delay_ms },
                    )
                } else {
                    Verifier::report(
                        policy,
                        phase,
                        digest,
                        Err(VerificationError::FetchFailed(failure)),
                    )
                }
            },
            (Stage::Verifying { digest }, Event::Verified(Ok(valid))) => Verifier::report(
                policy,
                phase,
                digest,
                Ok(valid),
            ),
            (Stage::Verifying { digest }, Event::Verified(Err(failure))) => Verifier::report(
                policy,
                phase,
                digest,
                Err(VerificationError::VerifierError(failure)),
            ),
            (Stage::Emitting { digest }, Event::Emitted) => {
                match phase {
                    Phase::Running => (
                        Verifier { policy, phase, stage: Stage::Receiving },
                        Action::Receive,
                    ),
                    _ => (Verifier::stopped(policy), Action::Stop),
                }
            },
            (stage, _) => (Verifier { policy, phase, stage }, Action::Continue),
        }
    }

    /// Takes `event` and answers with the pipeline after it and with what
    /// the caller is to do next.
    pub fn step(self, event: Event) -> (step: (Verifier, Action))
        ensures
            (step.0@, step.1@) == self@.next(event@),
            step.0@.policy == self@.policy,
            self@.wf() ==> step.0@.wf(),
    {
        proof {
            lemma_next_keeps_well_formed(self@, event@);
        }
        match self.phase {
            Phase::Stopped => (self, Action::Stop),
            Phase::Idle => match event {
                Event::Start => (
                    Verifier { policy: self.policy, phase: Phase::Running, stage: self.stage },
                    Action::Receive,
                ),
                _ => (self, Action::Continue),
            },
            _ => match event {
                Event::OutboundClosed => (Verifier::stopped(self.policy), Action::Stop),
                Event::InboundClosed => {
                    match self.stage {
                        Stage::Receiving => (Verifier::stopped(self.policy), Action::Stop),
                        stage => (
                            Verifier { policy: self.policy, phase: Phase::Draining, stage },
                            Action::Continue,
                        ),
                    }
                },
                event => self.advance(event),
            },
        }
    }
}

proof fn lemma_mul_zero(factor: nat)
    ensures
        0 * factor == 0,
{
}

proof fn lemma_pow2_grows(low: nat, high: nat)
    requires
        low <= high,
    ensures
        pow2(low) <= pow2(high),
    decreases high,
{
    if low < high {
        lemma_pow2_grows(low, (high - 1) as nat);
    }
}

proof fn lemma_mul_monotone(factor: nat, low: nat, high: nat)
    requires
        low <= high,
    ensures
        factor * low <= factor * high,
{
    assert(factor * low <= factor * high) by (nonlinear_arith)
        requires
            low <= high,
    ;
}

} // verus!
