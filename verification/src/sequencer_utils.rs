//! Public keys of the committee members and their base64 text.

use vstd::prelude::*;

verus! {

/// Number of bytes of a public key.
pub const PUBLIC_KEY_SIZE: usize = 32;

/// The public key of a committee member.
#[derive(Copy, Clone, Debug, Eq, PartialEq, Hash, Ord, PartialOrd, Default)]
pub struct PublicKey(pub [u8; 32]);

/// Why a text is not the base64 text of a public key.
#[derive(Clone, Copy, Debug, PartialEq, Eq, Structural)]
pub enum DecodeError {
    /// The byte at the given offset is no base64 symbol.
    InvalidByte(usize, u8),
    /// The text has a length that no base64 text has, or it stands for fewer
    /// bytes than a public key has.
    InvalidLength,
    /// The last symbol, at the given offset, holds bits that stand for nothing.
    InvalidLastSymbol(usize, u8),
}

/// The base64 text of `bytes`: standard alphabet, with padding.
pub uninterp spec fn base64_text(bytes: Seq<u8>) -> Seq<char>;

/// The bytes that the base64 text `text` stands for (standard alphabet, with
/// padding), or why it stands for none.
pub uninterp spec fn base64_decoded(text: Seq<char>) -> Result<Seq<u8>, DecodeError>;

/// `base64::encode` on the bytes of a key. The contract gives its result the
/// name `base64_text` and claims nothing more of it.
#[verifier::external_body]
fn base64_encode(bytes: &[u8; 32]) -> (text: String)
    ensures
        text@ == base64_text(bytes@),
{
    base64::encode(bytes)
}

/// `base64::decode`, with its error turned variant by variant into
/// `DecodeError`. The contract gives its result the name `base64_decoded` and
/// claims nothing more of it.
#[verifier::external_body]
fn base64_decode(text: &str) -> (decoded: Result<Vec<u8>, DecodeError>)
    ensures
        match decoded {
            Ok(bytes) => base64_decoded(text@) == Ok::<Seq<u8>, DecodeError>(bytes@),
            Err(defect) => base64_decoded(text@) == Err::<Seq<u8>, DecodeError>(defect),
        },
{
    match base64::decode(text) {
        Ok(bytes) => Ok(bytes),
        Err(base64::DecodeError::InvalidByte(offset, byte)) => Err(
            DecodeError::InvalidByte(offset, byte),
        ),
        Err(base64::DecodeError::InvalidLength) => Err(DecodeError::InvalidLength),
        Err(base64::DecodeError::InvalidLastSymbol(offset, byte)) => Err(
            DecodeError::InvalidLastSymbol(offset, byte),
        ),
    }
}

impl PublicKey {
    /// The key as base64 text.
    pub fn encode_base64(&self) -> (text: String)
        ensures
            text@ == base64_text(self.0@),
    {
        base64_encode(&self.0)
    }

    /// The key made of the first `PUBLIC_KEY_SIZE` of `bytes`.
    pub fn from_bytes(bytes: &[u8]) -> (key: Result<PublicKey, DecodeError>)
        ensures
            key is Ok <==> bytes@.len() >= PUBLIC_KEY_SIZE,
            key matches Ok(k) ==> k.0@ == bytes@.subrange(0, PUBLIC_KEY_SIZE as int),
            key matches Err(defect) ==> defect == DecodeError::InvalidLength,
    {
        if bytes.len() < PUBLIC_KEY_SIZE {
            return Err(DecodeError::InvalidLength);
        }
        let mut array = [0u8; 32];
        let mut i: usize = 0;
        while i < PUBLIC_KEY_SIZE
            invariant
                i <= PUBLIC_KEY_SIZE,
                bytes@.len() >= PUBLIC_KEY_SIZE,
                forall|k: int| 0 <= k < i ==> array@[k] == bytes@[k],
            decreases PUBLIC_KEY_SIZE - i,
        {
            array[i] = bytes[i];
            i += 1;
        }
        assert(array@ =~= bytes@.subrange(0, PUBLIC_KEY_SIZE as int));
        Ok(PublicKey(array))
    }

    /// Reads a key from its base64 text.
    pub fn decode_base64(s: &str) -> (key: Result<PublicKey, DecodeError>)
        ensures
            match base64_decoded(s@) {
                Ok(bytes) => {
                    &&& key is Ok <==> bytes.len() >= PUBLIC_KEY_SIZE
                    &&& key matches Ok(k) ==> k.0@ == bytes.subrange(0, PUBLIC_KEY_SIZE as int)
                    &&& key matches Err(defect) ==> defect == DecodeError::InvalidLength
                },
                Err(defect) => key == Err::<PublicKey, DecodeError>(defect),
            },
    {
        match base64_decode(s) {
            Ok(bytes) => PublicKey::from_bytes(bytes.as_slice()),
            Err(defect) => Err(defect),
        }
    }
}

} // verus!
