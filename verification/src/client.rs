//! The rules of the benchmark client: how many transactions make a burst,
//! which of them is the sample, and how a transaction is framed.

use vstd::prelude::*;

verus! {

/// Bursts per second.
pub const PRECISION: u64 = 20;

/// Time between two bursts, in milliseconds.
pub const BURST_DURATION: u64 = 1000 / PRECISION;

/// The smallest transaction size that the client works with.
pub const MIN_TRANSACTION_SIZE: usize = 16;

/// First byte of a sample transaction.
pub const SAMPLE_TAG: u8 = 0;

/// First byte of a standard transaction.
pub const STANDARD_TAG: u8 = 1;

/// Bytes before the body of a transaction: the tag and the identifier.
pub const HEADER_SIZE: usize = 9;

/// The eight bytes of `id`, the most significant first.
pub open spec fn big_endian(id: u64) -> Seq<u8> {
    seq![
        ((id >> 56) & 0xff) as u8,
        ((id >> 48) & 0xff) as u8,
        ((id >> 40) & 0xff) as u8,
        ((id >> 32) & 0xff) as u8,
        ((id >> 24) & 0xff) as u8,
        ((id >> 16) & 0xff) as u8,
        ((id >> 8) & 0xff) as u8,
        (id & 0xff) as u8,
    ]
}

/// The tag that tells a sample transaction from a standard one.
pub open spec fn tag(sample: bool) -> u8 {
    if sample {
        SAMPLE_TAG
    } else {
        STANDARD_TAG
    }
}

/// A transaction before it is padded: tag, identifier, body.
pub open spec fn framed(sample: bool, id: u64, body: Seq<u8>) -> Seq<u8> {
    seq![tag(sample)] + big_endian(id) + body
}

/// `bytes` followed by as many zero bytes as it takes to reach `size`.
pub open spec fn padded(bytes: Seq<u8>, size: int) -> Seq<u8> {
    Seq::new(
        size as nat,
        |i: int|
            if i < bytes.len() {
                bytes[i]
            } else {
                0u8
            },
    )
}

/// The number of transactions in a burst at `rate` transactions per second.
pub fn burst_size(rate: u64) -> (burst: u64)
    ensures
        burst == rate / PRECISION,
{
    rate / PRECISION
}

/// Whether the transaction at `position` of burst number `counter` is the
/// sample of that burst.
pub fn is_sample(position: u64, counter: u64, burst: u64) -> (sample: bool)
    requires
        burst > 0,
    ensures
        sample == (position == counter % burst),
{
    position == counter % burst
}

/// Frames a transaction of `size` bytes: the tag, the identifier with its
/// most significant byte first, the body, and zero bytes up to `size`.
/// There is no such transaction where tag, identifier and body take more
/// than `size` bytes.
pub fn transaction(sample: bool, id: u64, body: &[u8], size: usize) -> (tx: Option<Vec<u8>>)
    ensures
        tx is Some <==> HEADER_SIZE + body@.len() <= size,
        tx matches Some(bytes) ==> bytes@ == padded(framed(sample, id, body@), size as int),
{
    if size < HEADER_SIZE || body.len() > size - HEADER_SIZE {
        return None;
    }
    assert(((id >> 56) & 0xff) <= 0xff && ((id >> 48) & 0xff) <= 0xff && ((id >> 40) & 0xff)
        <= 0xff && ((id >> 32) & 0xff) <= 0xff && ((id >> 24) & 0xff) <= 0xff && ((id >> 16)
        & 0xff) <= 0xff && ((id >> 8) & 0xff) <= 0xff && (id & 0xff) <= 0xff) by (bit_vector);
    let mut tx: Vec<u8> = Vec::new();
    tx.push(if sample { SAMPLE_TAG } else { STANDARD_TAG });
    tx.push(((id >> 56) & 0xff) as u8);
    tx.push(((id >> 48) & 0xff) as u8);
    tx.push(((id >> 40) & 0xff) as u8);
    tx.push(((id >> 32) & 0xff) as u8);
    tx.push(((id >> 24) & 0xff) as u8);
    tx.push(((id >> 16) & 0xff) as u8);
    tx.push(((id >> 8) & 0xff) as u8);
    tx.push((id & 0xff) as u8);
    tx.extend_from_slice(body);
    assert(tx@ =~= framed(sample, id, body@));
    let ghost unpadded = tx@;
    while tx.len() < size
        invariant
            unpadded.len() <= tx@.len() <= size,
            forall|i: int| 0 <= i < unpadded.len() ==> tx@[i] == unpadded[i],
            forall|i: int| unpadded.len() <= i < tx@.len() ==> tx@[i] == 0u8,
        decreases size - tx@.len(),
    {
        tx.push(0);
    }
    assert(tx@ =~= padded(unpadded, size as int));
    Some(tx)
}

} // verus!
