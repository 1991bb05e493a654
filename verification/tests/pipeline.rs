use inscription_verifier::digest::Digest;
use inscription_verifier::error::CapabilityFailure;
use inscription_verifier::error::MalformedInscription;
use inscription_verifier::error::VerificationError;
use inscription_verifier::error::VerifierFailure;
use inscription_verifier::pipeline::Action;
use inscription_verifier::pipeline::CallPolicy;
use inscription_verifier::pipeline::Event;
use inscription_verifier::pipeline::Phase;
use inscription_verifier::pipeline::VerificationOutcome;
use inscription_verifier::pipeline::Verifier;

const REFERENCE: &str = "0000000000000000000000000000000000000000000000000000000000000000i0";

fn policy(max_retries: u32) -> CallPolicy {
    CallPolicy { max_retries, base_delay_ms: 100, max_delay_ms: 1000, timeout_ms: 5000 }
}

fn digest(tag: u8) -> Digest {
    Digest([tag; 32])
}

fn payload(inputs: &[u8], proof_body: &[u8]) -> Vec<u8> {
    let mut payload = REFERENCE.as_bytes().to_vec();
    payload.extend_from_slice(inputs);
    payload.extend_from_slice(b"public_inputs_end");
    payload.extend_from_slice(proof_body);
    payload.extend_from_slice(b"nonce\n");
    payload
}

fn started(policy: CallPolicy) -> Verifier {
    let (pipeline, action) = Verifier::new(policy).step(Event::Start);
    assert_eq!(action, Action::Receive);
    assert_eq!(pipeline.phase(), Phase::Running);
    pipeline
}

/// Feeds the events of a digest whose collaborators all answer at once, and
/// returns the pipeline with the outcome that it emitted.
fn checked(pipeline: Verifier, digest: Digest, valid: bool) -> (Verifier, VerificationOutcome) {
    let (pipeline, action) = pipeline.step(Event::Digest(digest));
    assert_eq!(action, Action::Resolve { digest, delay_ms: 0 });
    let id = format!("{}i0", digest.to_hex());
    let (pipeline, action) = pipeline.step(Event::Resolved(Ok(id.clone())));
    assert_eq!(action, Action::Fetch { inscription_id: id, delay_ms: 0 });
    let (pipeline, action) = pipeline.step(Event::Fetched(Ok(payload(b"inputs", b"proof"))));
    assert_eq!(
        action,
        Action::Verify { proof: b"proofnonce\n".to_vec(), public_inputs: b"inputs".to_vec() }
    );
    let (pipeline, action) = pipeline.step(Event::Verified(Ok(valid)));
    match action {
        Action::Emit(outcome) => (pipeline, outcome),
        other => panic!("expected an outcome, got {:?}", other),
    }
}

#[test]
fn new_pipeline_is_idle_and_waits_for_start() {
    let pipeline = Verifier::new(policy(2));
    assert_eq!(pipeline.phase(), Phase::Idle);
    assert_eq!(pipeline.policy(), policy(2));
    let (pipeline, action) = pipeline.step(Event::Digest(digest(1)));
    assert_eq!(action, Action::Continue);
    assert_eq!(pipeline.phase(), Phase::Idle);
    let (pipeline, action) = pipeline.step(Event::InboundClosed);
    assert_eq!(action, Action::Continue);
    assert_eq!(pipeline.phase(), Phase::Idle);
    let (pipeline, action) = pipeline.step(Event::Start);
    assert_eq!(action, Action::Receive);
    assert_eq!(pipeline.phase(), Phase::Running);
}

#[test]
fn valid_proofs_are_reported_in_the_order_of_the_digests() {
    let mut pipeline = started(policy(0));
    let mut outcomes = Vec::new();
    for tag in 1..=5u8 {
        let (next, outcome) = checked(pipeline, digest(tag), true);
        outcomes.push(outcome);
        let (next, action) = next.step(Event::Emitted);
        assert_eq!(action, Action::Receive);
        assert_eq!(next.phase(), Phase::Running);
        pipeline = next;
    }
    let expected: Vec<VerificationOutcome> = (1..=5u8)
        .map(|tag| VerificationOutcome { digest: digest(tag), result: Ok(true) })
        .collect();
    assert_eq!(outcomes, expected);
}

#[test]
fn rejected_proof_is_reported_as_invalid_not_as_error() {
    let (pipeline, outcome) = checked(started(policy(0)), digest(9), false);
    assert_eq!(outcome, VerificationOutcome { digest: digest(9), result: Ok(false) });
    let (_, action) = pipeline.step(Event::Emitted);
    assert_eq!(action, Action::Receive);
}

#[test]
fn failed_resolution_is_reported_and_the_next_digest_is_processed() {
    let pipeline = started(policy(0));
    let (pipeline, action) = pipeline.step(Event::Digest(digest(1)));
    assert_eq!(action, Action::Resolve { digest: digest(1), delay_ms: 0 });
    let (pipeline, action) = pipeline.step(Event::Resolved(Err(CapabilityFailure::Unreachable)));
    assert_eq!(
        action,
        Action::Emit(VerificationOutcome {
            digest: digest(1),
            result: Err(VerificationError::ResolutionFailed(CapabilityFailure::Unreachable)),
        })
    );
    let (pipeline, action) = pipeline.step(Event::Emitted);
    assert_eq!(action, Action::Receive);
    assert_eq!(pipeline.phase(), Phase::Running);
    let (pipeline, outcome) = checked(pipeline, digest(2), true);
    assert_eq!(outcome, VerificationOutcome { digest: digest(2), result: Ok(true) });
    assert_eq!(pipeline.phase(), Phase::Running);
}

#[test]
fn resolver_is_asked_again_with_growing_delay_until_retries_are_used_up() {
    let pipeline = started(policy(3));
    let (pipeline, _) = pipeline.step(Event::Digest(digest(4)));
    let (pipeline, action) = pipeline.step(Event::Resolved(Err(CapabilityFailure::Timeout)));
    assert_eq!(action, Action::Resolve { digest: digest(4), delay_ms: 100 });
    let (pipeline, action) = pipeline.step(Event::Resolved(Err(CapabilityFailure::Unreachable)));
    assert_eq!(action, Action::Resolve { digest: digest(4), delay_ms: 200 });
    let (pipeline, action) = pipeline.step(Event::Resolved(Err(CapabilityFailure::Timeout)));
    assert_eq!(action, Action::Resolve { digest: digest(4), delay_ms: 400 });
    let (_, action) = pipeline.step(Event::Resolved(Err(CapabilityFailure::NotFound)));
    assert_eq!(
        action,
        Action::Emit(VerificationOutcome {
            digest: digest(4),
            result: Err(VerificationError::ResolutionFailed(CapabilityFailure::NotFound)),
        })
    );
}

#[test]
fn resolver_that_answers_on_a_retry_lets_the_digest_go_on() {
    let pipeline = started(policy(2));
    let (pipeline, _) = pipeline.step(Event::Digest(digest(4)));
    let (pipeline, _) = pipeline.step(Event::Resolved(Err(CapabilityFailure::Timeout)));
    let (_, action) = pipeline.step(Event::Resolved(Ok("id".to_string())));
    assert_eq!(action, Action::Fetch { inscription_id: "id".to_string(), delay_ms: 0 });
}

#[test]
fn failed_fetch_is_retried_then_reported() {
    let pipeline = started(policy(1));
    let (pipeline, _) = pipeline.step(Event::Digest(digest(7)));
    let (pipeline, _) = pipeline.step(Event::Resolved(Ok("abci0".to_string())));
    let (pipeline, action) = pipeline.step(Event::Fetched(Err(CapabilityFailure::Timeout)));
    assert_eq!(action, Action::Fetch { inscription_id: "abci0".to_string(), delay_ms: 100 });
    let (pipeline, action) = pipeline.step(Event::Fetched(Err(CapabilityFailure::NotFound)));
    assert_eq!(
        action,
        Action::Emit(VerificationOutcome {
            digest: digest(7),
            result: Err(VerificationError::FetchFailed(CapabilityFailure::NotFound)),
        })
    );
    let (_, action) = pipeline.step(Event::Emitted);
    assert_eq!(action, Action::Receive);
}

#[test]
fn malformed_inscription_is_reported() {
    let pipeline = started(policy(1));
    let (pipeline, _) = pipeline.step(Event::Digest(digest(7)));
    let (pipeline, _) = pipeline.step(Event::Resolved(Ok("abci0".to_string())));
    let (pipeline, action) = pipeline.step(Event::Fetched(Ok(b"too short".to_vec())));
    assert_eq!(
        action,
        Action::Emit(VerificationOutcome {
            digest: digest(7),
            result: Err(VerificationError::MalformedInscription(
                MalformedInscription::TruncatedReference
            )),
        })
    );
    let (_, action) = pipeline.step(Event::Emitted);
    assert_eq!(action, Action::Receive);
}

#[test]
fn verifier_failure_is_told_apart_from_an_invalid_proof() {
    let pipeline = started(policy(1));
    let (pipeline, _) = pipeline.step(Event::Digest(digest(7)));
    let (pipeline, _) = pipeline.step(Event::Resolved(Ok("abci0".to_string())));
    let (pipeline, _) = pipeline.step(Event::Fetched(Ok(payload(b"i", b"p"))));
    let (_, action) = pipeline.step(Event::Verified(Err(VerifierFailure::MalformedProof)));
    assert_eq!(
        action,
        Action::Emit(VerificationOutcome {
            digest: digest(7),
            result: Err(VerificationError::VerifierError(VerifierFailure::MalformedProof)),
        })
    );
}

#[test]
fn closing_inbound_at_rest_stops_the_pipeline() {
    let (pipeline, action) = started(policy(0)).step(Event::InboundClosed);
    assert_eq!(action, Action::Stop);
    assert_eq!(pipeline.phase(), Phase::Stopped);

    let (pipeline, _) = checked(started(policy(0)), digest(1), true);
    let (pipeline, _) = pipeline.step(Event::Emitted);
    let (pipeline, action) = pipeline.step(Event::InboundClosed);
    assert_eq!(action, Action::Stop);
    assert_eq!(pipeline.phase(), Phase::Stopped);
}

#[test]
fn closing_inbound_in_flight_drains_then_stops() {
    let pipeline = started(policy(0));
    let (pipeline, _) = pipeline.step(Event::Digest(digest(3)));
    let (pipeline, action) = pipeline.step(Event::InboundClosed);
    assert_eq!(action, Action::Continue);
    assert_eq!(pipeline.phase(), Phase::Draining);
    let (pipeline, action) = pipeline.step(Event::Digest(digest(4)));
    assert_eq!(action, Action::Continue);
    assert_eq!(pipeline.phase(), Phase::Draining);
    let (pipeline, action) = pipeline.step(Event::Resolved(Ok("abci0".to_string())));
    assert_eq!(action, Action::Fetch { inscription_id: "abci0".to_string(), delay_ms: 0 });
    let (pipeline, _) = pipeline.step(Event::Fetched(Ok(payload(b"i", b"p"))));
    let (pipeline, action) = pipeline.step(Event::Verified(Ok(true)));
    assert_eq!(
        action,
        Action::Emit(VerificationOutcome { digest: digest(3), result: Ok(true) })
    );
    assert_eq!(pipeline.phase(), Phase::Draining);
    let (pipeline, action) = pipeline.step(Event::Emitted);
    assert_eq!(action, Action::Stop);
    assert_eq!(pipeline.phase(), Phase::Stopped);
}

#[test]
fn closing_outbound_stops_at_once() {
    let pipeline = started(policy(0));
    let (pipeline, _) = pipeline.step(Event::Digest(digest(3)));
    let (pipeline, action) = pipeline.step(Event::OutboundClosed);
    assert_eq!(action, Action::Stop);
    assert_eq!(pipeline.phase(), Phase::Stopped);

    let (pipeline, _) = checked(started(policy(0)), digest(1), true);
    let (pipeline, action) = pipeline.step(Event::OutboundClosed);
    assert_eq!(action, Action::Stop);
    assert_eq!(pipeline.phase(), Phase::Stopped);
}

#[test]
fn stopped_pipeline_stays_stopped() {
    let (mut pipeline, _) = started(policy(0)).step(Event::InboundClosed);
    let events = vec![
        Event::Start,
        Event::Digest(digest(1)),
        Event::Resolved(Ok("abci0".to_string())),
        Event::Fetched(Ok(payload(b"i", b"p"))),
        Event::Verified(Ok(true)),
        Event::Emitted,
        Event::InboundClosed,
        Event::OutboundClosed,
    ];
    for event in events {
        let (next, action) = pipeline.step(event);
        assert_eq!(action, Action::Stop);
        assert_eq!(next.phase(), Phase::Stopped);
        pipeline = next;
    }
}

#[test]
fn event_that_answers_nothing_changes_nothing() {
    let pipeline = started(policy(0));
    let (pipeline, action) = pipeline.step(Event::Verified(Ok(true)));
    assert_eq!(action, Action::Continue);
    let (pipeline, action) = pipeline.step(Event::Emitted);
    assert_eq!(action, Action::Continue);
    let (pipeline, action) = pipeline.step(Event::Start);
    assert_eq!(action, Action::Continue);
    let (pipeline, _) = pipeline.step(Event::Digest(digest(1)));
    let (pipeline, action) = pipeline.step(Event::Digest(digest(2)));
    assert_eq!(action, Action::Continue);
    let (pipeline, action) = pipeline.step(Event::Fetched(Ok(payload(b"i", b"p"))));
    assert_eq!(action, Action::Continue);
    let (_, action) = pipeline.step(Event::Resolved(Ok("abci0".to_string())));
    assert_eq!(action, Action::Fetch { inscription_id: "abci0".to_string(), delay_ms: 0 });
}

#[test]
fn delay_doubles_up_to_its_bound() {
    let policy = policy(10);
    assert_eq!(policy.delay_ms(0), 100);
    assert_eq!(policy.delay_ms(1), 200);
    assert_eq!(policy.delay_ms(2), 400);
    assert_eq!(policy.delay_ms(3), 800);
    assert_eq!(policy.delay_ms(4), 1000);
    assert_eq!(policy.delay_ms(63), 1000);
    assert_eq!(policy.delay_ms(u32::MAX), 1000);
}

#[test]
fn delay_at_the_edges() {
    let none = CallPolicy { max_retries: 1, base_delay_ms: 0, max_delay_ms: 1000, timeout_ms: 1 };
    assert_eq!(none.delay_ms(0), 0);
    assert_eq!(none.delay_ms(u32::MAX), 0);
    let capped = CallPolicy { max_retries: 1, base_delay_ms: 7, max_delay_ms: 5, timeout_ms: 1 };
    assert_eq!(capped.delay_ms(0), 5);
    assert_eq!(capped.delay_ms(9), 5);
    let wide =
        CallPolicy { max_retries: 1, base_delay_ms: 1, max_delay_ms: u64::MAX, timeout_ms: 1 };
    assert_eq!(wide.delay_ms(0), 1);
    assert_eq!(wide.delay_ms(63), 1u64 << 63);
    assert_eq!(wide.delay_ms(64), u64::MAX);
    let exact = CallPolicy { max_retries: 1, base_delay_ms: 3, max_delay_ms: 12, timeout_ms: 1 };
    assert_eq!(exact.delay_ms(2), 12);
    assert_eq!(exact.delay_ms(3), 12);
}

#[test]
fn digest_text_is_lower_case_hexadecimal() {
    let digest_bytes: [u8; 32] = [
        0xff, 0x06, 0xf3, 0x37, 0x0b, 0x53, 0x93, 0xc9, 0x90, 0x53, 0x3b, 0xae, 0xfd, 0x80, 0xbe,
        0xf0, 0x8d, 0x47, 0xcd, 0xaf, 0xf8, 0x08, 0x82, 0x46, 0xc1, 0x35, 0x9d, 0xb1, 0x36, 0x6d,
        0x60, 0xfe,
    ];
    let digest = Digest(digest_bytes);
    assert_eq!(
        digest.to_hex(),
        "ff06f3370b5393c990533baefd80bef08d47cdaff8088246c1359db1366d60fe"
    );
    assert_eq!(Digest([0; 32]).to_hex(), "0".repeat(64));
    assert_eq!(Digest([0xab; 32]).to_hex(), "ab".repeat(32));
}

/// Plays the collaborators: performs what the pipeline asks for on `digests`
/// until it asks to stop, and collects what it emits. The resolver fails for
/// digests whose first byte is odd, `failures_before_answer` times for the
/// others; the inbound channel is closed once `digests` are used up.
fn drive(
    policy: CallPolicy,
    digests: &[Digest],
    failures_before_answer: u32,
) -> (Vec<VerificationOutcome>, u32) {
    let mut inbound = digests.iter();
    let mut outcomes = Vec::new();
    let mut calls = 0;
    let mut failures = 0;
    let (mut pipeline, mut action) = Verifier::new(policy).step(Event::Start);
    loop {
        let event = match action {
            Action::Receive => {
                failures = 0;
                match inbound.next() {
                    Some(digest) => Event::Digest(*digest),
                    None => Event::InboundClosed,
                }
            }
            Action::Resolve { digest, .. } => {
                calls += 1;
                if digest.0[0] % 2 == 1 || failures < failures_before_answer {
                    failures += 1;
                    Event::Resolved(Err(CapabilityFailure::Unreachable))
                } else {
                    Event::Resolved(Ok(format!("{}i0", digest.to_hex())))
                }
            }
            Action::Fetch { inscription_id, .. } => {
                calls += 1;
                Event::Fetched(Ok(payload(inscription_id.as_bytes(), b"proof")))
            }
            Action::Verify { proof, public_inputs } => {
                calls += 1;
                assert_eq!(proof, b"proofnonce\n".to_vec());
                assert_eq!(public_inputs.len(), 66);
                Event::Verified(Ok(true))
            }
            Action::Emit(outcome) => {
                outcomes.push(outcome);
                Event::Emitted
            }
            Action::Continue => panic!("every event answers an action"),
            Action::Stop => break,
        };
        let (next, asked) = pipeline.step(event);
        pipeline = next;
        action = asked;
    }
    assert_eq!(pipeline.phase(), Phase::Stopped);
    (outcomes, calls)
}

#[test]
fn driven_pipeline_reports_every_digest_once_and_in_order() {
    let digests: Vec<Digest> = [2u8, 4, 6, 8, 10, 12].iter().map(|tag| digest(*tag)).collect();
    let (outcomes, calls) = drive(policy(0), &digests, 0);
    let expected: Vec<VerificationOutcome> = digests
        .iter()
        .map(|digest| VerificationOutcome { digest: *digest, result: Ok(true) })
        .collect();
    assert_eq!(outcomes, expected);
    assert_eq!(calls, 18);
}

#[test]
fn driven_pipeline_goes_on_after_failed_resolutions() {
    let digests: Vec<Digest> = [2u8, 3, 4, 5, 5, 6].iter().map(|tag| digest(*tag)).collect();
    let (outcomes, calls) = drive(policy(2), &digests, 0);
    let expected: Vec<VerificationOutcome> = digests
        .iter()
        .map(|digest| VerificationOutcome {
            digest: *digest,
            result: if digest.0[0] % 2 == 1 {
                Err(VerificationError::ResolutionFailed(CapabilityFailure::Unreachable))
            } else {
                Ok(true)
            },
        })
        .collect();
    assert_eq!(outcomes, expected);
    assert_eq!(calls, 3 * 3 + 3 * 3);
}

#[test]
fn driven_pipeline_overcomes_failures_within_the_retries() {
    let digests: Vec<Digest> = [2u8, 4].iter().map(|tag| digest(*tag)).collect();
    let (outcomes, calls) = drive(policy(2), &digests, 2);
    assert_eq!(
        outcomes,
        vec![
            VerificationOutcome { digest: digest(2), result: Ok(true) },
            VerificationOutcome { digest: digest(4), result: Ok(true) },
        ]
    );
    assert_eq!(calls, 2 * 5);
    let (outcomes, _) = drive(policy(1), &digests, 2);
    assert_eq!(
        outcomes[0].result,
        Err(VerificationError::ResolutionFailed(CapabilityFailure::Unreachable))
    );
}

#[test]
fn driven_pipeline_without_digests_stops_at_once() {
    let (outcomes, calls) = drive(policy(3), &[], 0);
    assert_eq!(outcomes, Vec::new());
    assert_eq!(calls, 0);
}

#[test]
fn channels_hold_a_thousand_items() {
    assert_eq!(inscription_verifier::pipeline::CHANNEL_CAPACITY, 1000);
}

#[test]
fn every_failure_of_the_verifier_is_reported_as_it_came() {
    for failure in [
        VerifierFailure::MalformedProof,
        VerifierFailure::MalformedPublicInputs,
        VerifierFailure::Timeout,
    ] {
        let pipeline = started(policy(3));
        let (pipeline, _) = pipeline.step(Event::Digest(digest(7)));
        let (pipeline, _) = pipeline.step(Event::Resolved(Ok("abci0".to_string())));
        let (pipeline, _) = pipeline.step(Event::Fetched(Ok(payload(b"i", b"p"))));
        let (pipeline, action) = pipeline.step(Event::Verified(Err(failure)));
        assert_eq!(
            action,
            Action::Emit(VerificationOutcome {
                digest: digest(7),
                result: Err(VerificationError::VerifierError(failure)),
            })
        );
        let (_, action) = pipeline.step(Event::Emitted);
        assert_eq!(action, Action::Receive);
    }
}

#[test]
fn every_defect_of_an_inscription_is_reported_as_it_came() {
    let mut missing_nonce = REFERENCE.as_bytes().to_vec();
    missing_nonce.extend_from_slice(b"inputs public_inputs_end proof");
    let mut missing_byte = missing_nonce.clone();
    missing_byte.extend_from_slice(b" nonce");
    let cases = vec![
        (Vec::new(), MalformedInscription::TruncatedReference),
        (REFERENCE.as_bytes().to_vec(), MalformedInscription::MissingPublicInputsEnd),
        (missing_nonce, MalformedInscription::MissingNonce),
        (missing_byte, MalformedInscription::MissingClosingByte),
    ];
    for (fetched, defect) in cases {
        let pipeline = started(policy(3));
        let (pipeline, _) = pipeline.step(Event::Digest(digest(7)));
        let (pipeline, _) = pipeline.step(Event::Resolved(Ok("abci0".to_string())));
        let (_, action) = pipeline.step(Event::Fetched(Ok(fetched)));
        assert_eq!(
            action,
            Action::Emit(VerificationOutcome {
                digest: digest(7),
                result: Err(VerificationError::MalformedInscription(defect)),
            })
        );
    }
}
