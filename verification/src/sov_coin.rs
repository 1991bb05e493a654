//! The inscription format: a fixed-width reference to the previous inscription,
//! the public inputs, and the proof, framed by two marker tokens.

use crate::error::MalformedInscription;
use crate::error::MissingPayload;
use vstd::prelude::*;
use vstd::slice::slice_subrange;
use vstd::slice::slice_to_vec;

verus! {

/// Width in bytes of the reference to the previous inscription.
pub const INSCRIPTION_ID_SIZE: usize = 66;

/// The token `public_inputs_end`, which closes the public inputs.
pub const PUBLIC_INPUTS_END: [u8; 17] = [
    112, 117, 98, 108, 105, 99, 95, 105, 110, 112, 117, 116, 115, 95, 101, 110, 100,
];

/// The token `nonce`, which closes the proof together with the byte after it.
pub const NONCE: [u8; 5] = [110, 111, 110, 99, 101];

/// `needle` stands in `haystack` at index `at`.
pub open spec fn occurs_at(haystack: Seq<u8>, needle: Seq<u8>, at: int) -> bool {
    &&& 0 <= at
    &&& at + needle.len() <= haystack.len()
    &&& haystack.subrange(at, at + needle.len()) =~= needle
}

/// `at` is the first index, not before `from`, at which `needle` stands in `haystack`.
pub open spec fn first_occurrence(haystack: Seq<u8>, needle: Seq<u8>, from: int, at: int) -> bool {
    &&& from <= at
    &&& occurs_at(haystack, needle, at)
    &&& forall|k: int| from <= k < at ==> !occurs_at(haystack, needle, k)
}

/// The first index, not before `from`, at which `needle` stands in `haystack`, if there is one.
pub open spec fn find_from(haystack: Seq<u8>, needle: Seq<u8>, from: int) -> Option<int> {
    if exists|at: int| first_occurrence(haystack, needle, from, at) {
        Some(choose|at: int| first_occurrence(haystack, needle, from, at))
    } else {
        None
    }
}

/// The first index at which `needle` stands in `haystack`, if there is one.
pub open spec fn find(haystack: Seq<u8>, needle: Seq<u8>) -> Option<int> {
    find_from(haystack, needle, 0)
}

/// A search result as a mathematical index.
pub open spec fn position(found: Option<usize>) -> Option<int> {
    match found {
        Some(at) => Some(at as int),
        None => None,
    }
}

/// At most one index is the first occurrence, so `find_from` is that index.
pub proof fn lemma_first_occurrence_is_found(
    haystack: Seq<u8>,
    needle: Seq<u8>,
    from: int,
    at: int,
)
    requires
        first_occurrence(haystack, needle, from, at),
    ensures
        find_from(haystack, needle, from) == Some(at),
{
    let chosen = choose|i: int| first_occurrence(haystack, needle, from, i);
    assert(first_occurrence(haystack, needle, from, chosen));
    if chosen < at {
        assert(!occurs_at(haystack, needle, chosen));
    } else if at < chosen {
        assert(!occurs_at(haystack, needle, at));
    }
}

/// Where `needle` stands nowhere from `from` on, `find_from` finds nothing.
pub proof fn lemma_no_occurrence_is_none(haystack: Seq<u8>, needle: Seq<u8>, from: int)
    requires
        forall|k: int| from <= k ==> !occurs_at(haystack, needle, k),
    ensures
        find_from(haystack, needle, from) is None,
{
}

/// The empty needle stands at index 0 of every haystack, the empty one included.
pub proof fn lemma_empty_needle_found_at_zero(haystack: Seq<u8>)
    ensures
        find(haystack, Seq::<u8>::empty()) == Some(0int),
{
    assert(occurs_at(haystack, Seq::<u8>::empty(), 0));
    lemma_first_occurrence_is_found(haystack, Seq::<u8>::empty(), 0, 0);
}

fn matches_at(haystack: &[u8], needle: &[u8], at: usize) -> (r: bool)
    requires
        at + needle@.len() <= haystack@.len(),
    ensures
        r == occurs_at(haystack@, needle@, at as int),
{
    let n = needle.len();
    let h = haystack.len();
    let mut k: usize = 0;
    while k < n
        invariant
            n == needle@.len(),
            h == haystack@.len(),
            at + n <= h,
            k <= n,
            forall|j: int| 0 <= j < k ==> haystack@[at + j] == needle@[j],
        decreases n - k,
    {
        if haystack[at + k] != needle[k] {
            assert(haystack@.subrange(at as int, at + n)[k as int] != needle@[k as int]);
            return false;
        }
        k += 1;
    }
    true
}

/// Searches `haystack` for `needle`, trying the indices from `from` upwards.
pub fn search_vec_from(haystack: &[u8], needle: &[u8], from: usize) -> (found: Option<usize>)
    ensures
        position(found) == find_from(haystack@, needle@, from as int),
        found matches Some(at) ==> first_occurrence(haystack@, needle@, from as int, at as int),
        found is None ==> forall|k: int| from <= k ==> !occurs_at(haystack@, needle@, k),
{
    let n = needle.len();
    let h = haystack.len();
    if n > h || from > h - n {
        proof {
            lemma_no_occurrence_is_none(haystack@, needle@, from as int);
        }
        return None;
    }
    let last = h - n;
    let mut at = from;
    loop
        invariant
            n == needle@.len(),
            h == haystack@.len(),
            last == h - n,
            from <= at <= last,
            forall|k: int| from <= k < at ==> !occurs_at(haystack@, needle@, k),
        decreases last - at,
    {
        if matches_at(haystack, needle, at) {
            proof {
                lemma_first_occurrence_is_found(haystack@, needle@, from as int, at as int);
            }
            return Some(at);
        }
        if at == last {
            proof {
                lemma_no_occurrence_is_none(haystack@, needle@, from as int);
            }
            return None;
        }
        at += 1;
    }
}

/// Searches `haystack` for the first occurrence of `needle` as a run of
/// adjacent bytes. The empty needle is found at index 0.
pub fn search_vec(haystack: &[u8], needle: &[u8]) -> (found: Option<usize>)
    ensures
        position(found) == find(haystack@, needle@),
        found matches Some(at) ==> first_occurrence(haystack@, needle@, 0, at as int),
        found is None ==> forall|k: int| !occurs_at(haystack@, needle@, k),
        needle@.len() == 0 ==> found == Some(0usize),
{
    let found = search_vec_from(haystack, needle, 0);
    proof {
        if needle@.len() == 0 {
            assert(needle@ =~= Seq::<u8>::empty());
            lemma_empty_needle_found_at_zero(haystack@);
        }
    }
    found
}

/// The three segments of an inscription.
#[derive(Debug, PartialEq, Eq)]
pub struct DABlock {
    /// Reference to the previous inscription of the chain.
    pub prev_inscription_id: Vec<u8>,
    /// Serialized proof, with the token and the byte that close it.
    pub proof: Vec<u8>,
    /// Serialized public inputs of the proof.
    pub pub_inputs: Vec<u8>,
}

/// The segments of an inscription as mathematical sequences.
pub struct DecodedBlock {
    pub prev_inscription_id: Seq<u8>,
    pub proof: Seq<u8>,
    pub pub_inputs: Seq<u8>,
}

impl View for DABlock {
    type V = DecodedBlock;

    open spec fn view(&self) -> DecodedBlock {
        DecodedBlock {
            prev_inscription_id: self.prev_inscription_id@,
            proof: self.proof@,
            pub_inputs: self.pub_inputs@,
        }
    }
}

impl DecodedBlock {
    /// The payload that carries this block: reference, public inputs, the
    /// `public_inputs_end` token, proof.
    pub open spec fn encode(self) -> Seq<u8> {
        self.prev_inscription_id + self.pub_inputs + PUBLIC_INPUTS_END@ + self.proof
    }

    /// The block can be framed: the reference has its fixed width, no
    /// `public_inputs_end` token begins inside the public inputs, and the
    /// proof ends with its first `nonce` token and one more byte.
    pub open spec fn well_framed(self) -> bool {
        &&& self.prev_inscription_id.len() == INSCRIPTION_ID_SIZE
        &&& first_occurrence(
            self.pub_inputs + PUBLIC_INPUTS_END@,
            PUBLIC_INPUTS_END@,
            0,
            self.pub_inputs.len() as int,
        )
        &&& self.proof.len() >= NONCE@.len() + 1
        &&& first_occurrence(self.proof, NONCE@, 0, self.proof.len() - NONCE@.len() - 1)
    }
}

/// What a payload decodes to. The reference is the first
/// `INSCRIPTION_ID_SIZE` bytes; the public inputs run from there to the first
/// `public_inputs_end` token; the proof runs from the end of that token
/// through the first `nonce` token after it and the byte that follows.
pub open spec fn decode(payload: Seq<u8>) -> Result<DecodedBlock, MalformedInscription> {
    if payload.len() < INSCRIPTION_ID_SIZE {
        Err(MalformedInscription::TruncatedReference)
    } else {
        match find_from(payload, PUBLIC_INPUTS_END@, INSCRIPTION_ID_SIZE as int) {
            None => Err(MalformedInscription::MissingPublicInputsEnd),
            Some(inputs_end) => {
                let proof_start = inputs_end + PUBLIC_INPUTS_END@.len();
                match find_from(payload, NONCE@, proof_start) {
                    None => Err(MalformedInscription::MissingNonce),
                    Some(nonce_start) => {
                        let proof_end = nonce_start + NONCE@.len() + 1;
                        if proof_end > payload.len() {
                            Err(MalformedInscription::MissingClosingByte)
                        } else {
                            Ok(
                                DecodedBlock {
                                    prev_inscription_id: payload.subrange(
                                        0,
                                        INSCRIPTION_ID_SIZE as int,
                                    ),
                                    proof: payload.subrange(proof_start, proof_end),
                                    pub_inputs: payload.subrange(
                                        INSCRIPTION_ID_SIZE as int,
                                        inputs_end,
                                    ),
                                },
                            )
                        }
                    },
                }
            },
        }
    }
}

/// An occurrence in a window of the haystack is an occurrence in the haystack,
/// and the other way round where the needle fits in the window.
pub proof fn lemma_occurs_in_window(
    haystack: Seq<u8>,
    needle: Seq<u8>,
    start: int,
    end: int,
    at: int,
)
    requires
        0 <= start <= end <= haystack.len(),
        0 <= at,
        at + needle.len() <= end - start,
    ensures
        occurs_at(haystack.subrange(start, end), needle, at) == occurs_at(
            haystack,
            needle,
            start + at,
        ),
{
    assert(haystack.subrange(start, end).subrange(at, at + needle.len()) =~= haystack.subrange(
        start + at,
        start + at + needle.len(),
    ));
}

/// Decoding inverts encoding: a well-framed block is what its payload decodes to.
pub proof fn lemma_decode_inverts_encode(block: DecodedBlock)
    requires
        block.well_framed(),
    ensures
        decode(block.encode()) == Ok::<DecodedBlock, MalformedInscription>(block),
{
    let payload = block.encode();
    let id = INSCRIPTION_ID_SIZE as int;
    let token = PUBLIC_INPUTS_END@;
    let inputs_end = id + block.pub_inputs.len();
    let proof_start = inputs_end + token.len();
    let nonce_start = payload.len() - NONCE@.len() - 1;
    assert(payload.len() == proof_start + block.proof.len());
    assert(payload.subrange(id, proof_start) =~= block.pub_inputs + token);
    assert(payload.subrange(proof_start, payload.len() as int) =~= block.proof);

    assert forall|k: int| id <= k <= inputs_end implies occurs_at(payload, token, k) == occurs_at(
        block.pub_inputs + token,
        token,
        k - id,
    ) by {
        lemma_occurs_in_window(payload, token, id, proof_start, k - id);
    }
    assert(first_occurrence(payload, token, id, inputs_end));
    lemma_first_occurrence_is_found(payload, token, id, inputs_end);

    assert forall|k: int| proof_start <= k <= nonce_start implies occurs_at(payload, NONCE@, k)
        == occurs_at(block.proof, NONCE@, k - proof_start) by {
        lemma_occurs_in_window(
            payload,
            NONCE@,
            proof_start,
            payload.len() as int,
            k - proof_start,
        );
    }
    assert(first_occurrence(payload, NONCE@, proof_start, nonce_start));
    lemma_first_occurrence_is_found(payload, NONCE@, proof_start, nonce_start);

    let decoded = decode(payload)->Ok_0;
    assert(decoded.prev_inscription_id =~= block.prev_inscription_id);
    assert(decoded.pub_inputs =~= block.pub_inputs);
    assert(decoded.proof =~= block.proof);
}

/// Encoding restores what was decoded: a decoded block is well framed, and
/// its payload is the decoded payload up to the byte that closes the proof.
pub proof fn lemma_encode_restores_decoded(payload: Seq<u8>)
    requires
        decode(payload) is Ok,
    ensures
        decode(payload)->Ok_0.well_framed(),
        decode(payload)->Ok_0.encode().len() <= payload.len(),
        decode(payload)->Ok_0.encode() == payload.subrange(
            0,
            decode(payload)->Ok_0.encode().len() as int,
        ),
{
    let block = decode(payload)->Ok_0;
    let id = INSCRIPTION_ID_SIZE as int;
    let token = PUBLIC_INPUTS_END@;
    let inputs_end = find_from(payload, token, id)->Some_0;
    let proof_start = inputs_end + token.len();
    let nonce_start = find_from(payload, NONCE@, proof_start)->Some_0;
    let proof_end = nonce_start + NONCE@.len() + 1;
    assert(first_occurrence(payload, token, id, inputs_end));
    assert(first_occurrence(payload, NONCE@, proof_start, nonce_start));
    assert(payload.subrange(id, proof_start) =~= block.pub_inputs + token);
    assert(block.encode() =~= payload.subrange(0, proof_end));

    assert forall|k: int| 0 <= k <= block.pub_inputs.len() implies occurs_at(
        block.pub_inputs + token,
        token,
        k,
    ) == occurs_at(payload, token, id + k) by {
        lemma_occurs_in_window(payload, token, id, proof_start, k);
    }
    assert forall|k: int| 0 <= k <= nonce_start - proof_start implies occurs_at(
        block.proof,
        NONCE@,
        k,
    ) == occurs_at(payload, NONCE@, proof_start + k) by {
        lemma_occurs_in_window(payload, NONCE@, proof_start, proof_end, k);
    }
}

/// A payload shorter than the reference does not decode.
pub proof fn lemma_short_payload_is_malformed(payload: Seq<u8>)
    requires
        payload.len() < INSCRIPTION_ID_SIZE,
    ensures
        decode(payload) == Err::<DecodedBlock, MalformedInscription>(
            MalformedInscription::TruncatedReference,
        ),
{
}

/// A payload does not decode where it holds a `public_inputs_end` token, none
/// before it past the reference, and no `nonce` token after it.
pub proof fn lemma_payload_without_nonce_is_malformed(payload: Seq<u8>, inputs_end: int)
    requires
        occurs_at(payload, PUBLIC_INPUTS_END@, inputs_end),
        forall|k: int|
            INSCRIPTION_ID_SIZE <= k < inputs_end ==> !occurs_at(payload, PUBLIC_INPUTS_END@, k),
        forall|k: int|
            inputs_end + PUBLIC_INPUTS_END@.len() <= k ==> !occurs_at(payload, NONCE@, k),
    ensures
        decode(payload) is Err,
        payload.len() >= INSCRIPTION_ID_SIZE && inputs_end >= INSCRIPTION_ID_SIZE ==> decode(
            payload,
        ) == Err::<DecodedBlock, MalformedInscription>(MalformedInscription::MissingNonce),
{
    let id = INSCRIPTION_ID_SIZE as int;
    let token = PUBLIC_INPUTS_END@;
    if payload.len() >= id {
        if inputs_end >= id {
            assert(first_occurrence(payload, token, id, inputs_end));
            lemma_first_occurrence_is_found(payload, token, id, inputs_end);
            lemma_no_occurrence_is_none(payload, NONCE@, inputs_end + token.len());
        } else {
            match find_from(payload, token, id) {
                None => {},
                Some(first) => {
                    assert(first_occurrence(payload, token, id, first));
                    lemma_no_occurrence_is_none(payload, NONCE@, first + token.len());
                },
            }
        }
    }
}

/// Picks the payload among the inscriptions of a transaction, given the body
/// of each in the order of the transaction: it is the body of the first.
pub fn inscription_payload(bodies: Vec<Option<Vec<u8>>>) -> (payload: Result<
    Vec<u8>,
    MissingPayload,
>)
    ensures
        match payload {
            Ok(body) => bodies@.len() > 0 && bodies@[0] == Some(body),
            Err(MissingPayload::NoInscription) => bodies@.len() == 0,
            Err(MissingPayload::MissingBody) => bodies@.len() > 0 && bodies@[0] is None,
        },
{
    let mut bodies = bodies;
    if bodies.len() == 0 {
        return Err(MissingPayload::NoInscription);
    }
    match bodies.swap_remove(0) {
        Some(body) => Ok(body),
        None => Err(MissingPayload::MissingBody),
    }
}

impl DABlock {
    /// Decodes an inscription payload into its three segments.
    ///
    /// The payload is malformed where it is shorter than the reference, where
    /// no `public_inputs_end` token stands after the reference, where no
    /// `nonce` token stands after that token, and where the payload ends
    /// with the `nonce` token. Bytes after the one that closes the proof
    /// belong to no segment.
    pub fn from_inscription(inscription: &[u8]) -> (decoded: Result<DABlock, MalformedInscription>)
        ensures
            match decoded {
                Ok(block) => decode(inscription@) == Ok::<DecodedBlock, MalformedInscription>(
                    block@,
                ),
                Err(defect) => decode(inscription@) == Err::<DecodedBlock, MalformedInscription>(
                    defect,
                ),
            },
            inscription@.len() < INSCRIPTION_ID_SIZE ==> decoded matches Err(
                MalformedInscription::TruncatedReference,
            ),
            decoded matches Ok(block) ==> block@.well_framed(),
    {
        proof {
            if decode(inscription@) is Ok {
                lemma_encode_restores_decoded(inscription@);
            }
        }
        let len = inscription.len();
        if len < INSCRIPTION_ID_SIZE {
            return Err(MalformedInscription::TruncatedReference);
        }
        let inputs_end = match search_vec_from(
            inscription,
            PUBLIC_INPUTS_END.as_slice(),
            INSCRIPTION_ID_SIZE,
        ) {
            Some(at) => at,
            None => {
                return Err(MalformedInscription::MissingPublicInputsEnd);
            },
        };
        let proof_start = inputs_end + PUBLIC_INPUTS_END.len();
        let nonce_start = match search_vec_from(inscription, NONCE.as_slice(), proof_start) {
            Some(at) => at,
            None => {
                return Err(MalformedInscription::MissingNonce);
            },
        };
        if len - nonce_start <= NONCE.len() {
            return Err(MalformedInscription::MissingClosingByte);
        }
        let proof_end = nonce_start + NONCE.len() + 1;
        Ok(
            DABlock {
                prev_inscription_id: slice_to_vec(
                    slice_subrange(inscription, 0, INSCRIPTION_ID_SIZE),
                ),
                proof: slice_to_vec(slice_subrange(inscription, proof_start, proof_end)),
                pub_inputs: slice_to_vec(
                    slice_subrange(inscription, INSCRIPTION_ID_SIZE, inputs_end),
                ),
            },
        )
    }

    /// Frames the three segments as an inscription payload: the reference,
    /// the public inputs, the `public_inputs_end` token and the proof, one
    /// after the other. The payload of a well-framed block decodes to the block.
    pub fn to_inscription(&self) -> (payload: Vec<u8>)
        ensures
            payload@ == self@.encode(),
            self@.well_framed() ==> decode(payload@) == Ok::<DecodedBlock, MalformedInscription>(
                self@,
            ),
    {
        proof {
            if self@.well_framed() {
                lemma_decode_inverts_encode(self@);
            }
        }
        let mut payload: Vec<u8> = Vec::new();
        payload.extend_from_slice(self.prev_inscription_id.as_slice());
        payload.extend_from_slice(self.pub_inputs.as_slice());
        payload.extend_from_slice(PUBLIC_INPUTS_END.as_slice());
        payload.extend_from_slice(self.proof.as_slice());
        assert(payload@ =~= self@.encode());
        payload
    }
}

} // verus!
