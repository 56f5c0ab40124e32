//! Envelope decoder: the pure, stateless transformation of a verified
//! log record into a structured `Envelope`. No authentication and no
//! sequencing happens here — purely structural checks.
//!
//! A log's payload bytes carry three 32-byte big-endian words — the
//! source address (12 zero bytes, then 20 address bytes), the nonce
//! (24 zero bytes, then 8 value bytes) and the fee (16 zero bytes, then
//! 16 value bytes) — followed by the free-form payload. Anything
//! shorter, or with nonzero padding, is rejected as `InvalidEnvelope`.

use vstd::prelude::*;
use crate::types::EthAddress;

verus! {

/// A verified log record as the external verifier hands it over: the
/// emitting contract's address and the raw event data.
pub struct Log {
    pub address: EthAddress,
    pub data: Vec<u8>,
}

/// The decoded, structured form of a verified relayed message.
pub struct Envelope {
    /// The address of the outbound channel contract that emitted the log.
    pub channel: EthAddress,
    /// The sender on the external chain that submitted the message.
    pub source: EthAddress,
    /// Sequence number of the message on its channel.
    pub nonce: u64,
    /// Submission fee offered to the relayer, in the fee asset.
    pub fee: u128,
    /// The application payload, forwarded opaquely to the dispatcher.
    pub payload: Vec<u8>,
}

/// Failure of the structural decode.
#[derive(Clone, Copy, PartialEq, Eq, Structural, Debug)]
pub enum DecodeError {
    InvalidEnvelope,
}

/// The big-endian integer value of a byte string.
pub open spec fn be_val(s: Seq<u8>) -> int
    decreases s.len(),
{
    if s.len() == 0 {
        0
    } else {
        be_val(s.drop_last()) * 256 + s.last()
    }
}

/// 256 to the `n`th power: the number of byte strings of length `n`.
pub open spec fn pow256(n: nat) -> int
    decreases n,
{
    if n == 0 {
        1
    } else {
        256 * pow256((n - 1) as nat)
    }
}

/// Structural well-formedness of a log's data: long enough for the
/// three header words, with all padding bytes zero.
pub open spec fn well_formed(data: Seq<u8>) -> bool {
    &&& data.len() >= 96
    &&& forall|i: int| 0 <= i < 12 ==> data[i] == 0
    &&& forall|i: int| 32 <= i < 56 ==> data[i] == 0
    &&& forall|i: int| 64 <= i < 80 ==> data[i] == 0
}

proof fn lemma_be_val_bound(s: Seq<u8>)
    ensures
        0 <= be_val(s) < pow256(s.len()),
    decreases s.len(),
{
    if s.len() > 0 {
        lemma_be_val_bound(s.drop_last());
    }
}

proof fn lemma_be_val_concat(a: Seq<u8>, b: Seq<u8>)
    ensures
        be_val(a + b) == be_val(a) * pow256(b.len()) + be_val(b),
    decreases b.len(),
{
    if b.len() == 0 {
        assert(a + b =~= a);
    } else {
        assert((a + b).drop_last() =~= a + b.drop_last());
        assert((a + b).last() == b.last());
        lemma_be_val_concat(a, b.drop_last());
        assert((be_val(a) * pow256((b.len() - 1) as nat) + be_val(b.drop_last())) * 256 == be_val(
            a,
        ) * (256 * pow256((b.len() - 1) as nat)) + be_val(b.drop_last()) * 256) by (nonlinear_arith);
    }
}

proof fn lemma_pow256_pos(n: nat)
    ensures
        pow256(n) >= 1,
    decreases n,
{
    if n > 0 {
        lemma_pow256_pos((n - 1) as nat);
    }
}

proof fn lemma_pow256_le(i: nat, j: nat)
    requires
        i <= j,
    ensures
        pow256(i) <= pow256(j),
    decreases j,
{
    if i < j && j > 0 {
        lemma_pow256_le(i, (j - 1) as nat);
        lemma_pow256_pos((j - 1) as nat);
    }
}

/// True exactly when every byte in `[from, to)` is zero.
fn all_zero(data: &Vec<u8>, from: usize, to: usize) -> (r: bool)
    requires
        from <= to && to <= data@.len(),
    ensures
        r <==> forall|i: int| from <= i < to ==> data@[i] == 0,
{
    let mut k: usize = from;
    while k < to
        invariant
            from <= k && k <= to && to <= data@.len(),
            forall|i: int| from <= i < k ==> data@[i] == 0,
        decreases to - k,
    {
        if data[k] != 0 {
            return false;
        }
        k += 1;
    }
    true
}

/// Reads the big-endian value of `count` bytes starting at `start`.
fn read_be(data: &Vec<u8>, start: usize, count: usize) -> (r: u128)
    requires
        count <= 16,
        start + count <= data@.len(),
    ensures
        r as int == be_val(data@.subrange(start as int, start as int + count as int)),
{
    let n: usize = data.len();
    let mut acc: u128 = 0;
    let mut k: usize = 0;
    proof {
        assert(data@.subrange(start as int, start as int) =~= Seq::<u8>::empty());
    }
    while k < count
        invariant
            k <= count && count <= 16,
            start + count <= n && n == data@.len(),
            acc as int == be_val(data@.subrange(start as int, start as int + k as int)),
            (acc as int) < pow256(k as nat),
        decreases count - k,
    {
        proof {
            lemma_pow256_le(k as nat, 15);
            reveal_with_fuel(pow256, 17);
            assert(pow256(16) == 0x100000000000000000000000000000000);
            assert(acc as int * 256 + 255 < pow256(16));
            let sub1 = data@.subrange(start as int, start as int + k as int + 1);
            assert(sub1.drop_last() =~= data@.subrange(start as int, start as int + k as int));
            assert(sub1.last() == data@[start as int + k as int]);
        }
        acc = acc * 256 + (data[start + k] as u128);
        k += 1;
    }
    acc
}

/// Decode a verified log record into an `Envelope`.
///
/// Succeeds exactly on structurally well-formed data, and then returns
/// precisely the channel (the emitting contract), source, nonce, fee and
/// payload encoded in the log; fails with `InvalidEnvelope` otherwise.
pub fn decode(log: &Log) -> (r: Result<Envelope, DecodeError>)
    ensures
        match r {
            Ok(e) => {
                &&& well_formed(log.data@)
                &&& e.channel == log.address
                &&& e.source.hi as int == be_val(log.data@.subrange(12, 16))
                &&& e.source.lo as int == be_val(log.data@.subrange(16, 32))
                &&& e.source.value() as int == be_val(log.data@.subrange(12, 32))
                &&& e.nonce as int == be_val(log.data@.subrange(56, 64))
                &&& e.fee as int == be_val(log.data@.subrange(80, 96))
                &&& e.payload@ == log.data@.subrange(96, log.data@.len() as int)
            },
            Err(DecodeError::InvalidEnvelope) => !well_formed(log.data@),
        },
{
    if log.data.len() < 96 {
        return Err(DecodeError::InvalidEnvelope);
    }
    if !all_zero(&log.data, 0, 12) || !all_zero(&log.data, 32, 56) || !all_zero(
        &log.data,
        64,
        80,
    ) {
        return Err(DecodeError::InvalidEnvelope);
    }
    let hi128 = read_be(&log.data, 12, 4);
    proof {
        lemma_be_val_bound(log.data@.subrange(12, 16));
        reveal_with_fuel(pow256, 5);
        assert(pow256(4) == 0x100000000);
    }
    let hi: u32 = hi128 as u32;
    let lo: u128 = read_be(&log.data, 16, 16);
    proof {
        assert(log.data@.subrange(12, 32) =~= log.data@.subrange(12, 16) + log.data@.subrange(
            16,
            32,
        ));
        lemma_be_val_concat(log.data@.subrange(12, 16), log.data@.subrange(16, 32));
        reveal_with_fuel(pow256, 17);
        assert(pow256(16) == 0x100000000000000000000000000000000);
    }
    let nonce128 = read_be(&log.data, 56, 8);
    proof {
        lemma_be_val_bound(log.data@.subrange(56, 64));
        reveal_with_fuel(pow256, 9);
        assert(pow256(8) == 0x10000000000000000);
    }
    let nonce: u64 = nonce128 as u64;
    let fee: u128 = read_be(&log.data, 80, 16);
    let mut payload: Vec<u8> = Vec::new();
    let mut k: usize = 96;
    while k < log.data.len()
        invariant
            96 <= k && k <= log.data@.len(),
            payload@ =~= log.data@.subrange(96, k as int),
        decreases log.data@.len() - k,
    {
        payload.push(log.data[k]);
        k += 1;
    }
    proof {
        assert(payload@ =~= log.data@.subrange(96, log.data@.len() as int));
    }
    Ok(
        Envelope {
            channel: log.address,
            source: EthAddress { hi, lo },
            nonce,
            fee,
            payload,
        },
    )
}

} // verus!
