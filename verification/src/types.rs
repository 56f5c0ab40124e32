//! Value types shared by the bridge components: addresses, hashes,
//! channel identifiers and message envelopes in raw (undecoded) form.

use vstd::prelude::*;

verus! {

/// A 20-byte external-chain account/contract address, held as the
/// big-endian split of its 160-bit value: `hi` carries the top 4 bytes,
/// `lo` the remaining 16.
#[derive(Clone, Copy, PartialEq, Eq, Structural, Debug, Hash)]
pub struct EthAddress {
    pub hi: u32,
    pub lo: u128,
}

impl EthAddress {
    /// The 160-bit numeric value of the address.
    pub open spec fn value(self) -> nat {
        self.hi as nat * 0x1_0000_0000_0000_0000_0000_0000_0000_0000 + self.lo as nat
    }
}

/// A 32-byte hash, held as the big-endian split of its 256-bit value.
#[derive(Clone, Copy, PartialEq, Eq, Structural, Debug)]
pub struct Hash256 {
    pub hi: u128,
    pub lo: u128,
}

/// Identifies which logical channel a message belongs to.
#[derive(Clone, Copy, PartialEq, Eq, Structural, Debug, Hash)]
pub enum ChannelId {
    Basic,
    Incentivized,
}

/// Sequence number of a message on its channel.
pub type MessageNonce = u64;

/// Idempotency/ordering token handed to the dispatcher: unique per
/// accepted message because the nonce sequencer never accepts the same
/// nonce twice on one channel.
#[derive(Clone, Copy, PartialEq, Eq, Structural, Debug, Hash)]
pub struct MessageId {
    pub channel_id: ChannelId,
    pub nonce: u64,
}

impl MessageId {
    pub fn new(channel_id: ChannelId, nonce: u64) -> (r: Self)
        ensures
            r.channel_id == channel_id,
            r.nonce == nonce,
    {
        Self { channel_id, nonce }
    }
}

/// Verification input for the message verifier.
pub struct Proof {
    /// The block hash of the block in which the receipt was included.
    pub block_hash: Hash256,
    /// The index of the transaction (and receipt) within the block.
    pub tx_index: u32,
    /// Proof keys and values.
    pub data: (Vec<Vec<u8>>, Vec<Vec<u8>>),
}

/// A message relayed from the external chain, still opaque: only the
/// verifier interprets it.
pub struct Message {
    /// The raw message data.
    pub data: Vec<u8>,
    /// Input to the message verifier.
    pub proof: Proof,
}

/// The trusted sender address on the external chain for one channel.
#[derive(Clone, Copy, PartialEq, Eq, Structural, Debug)]
pub struct SourceChannel {
    pub address: EthAddress,
}

impl Default for SourceChannel {
    fn default() -> (r: Self)
        ensures
            r.address.hi == 0 && r.address.lo == 0,
    {
        SourceChannel { address: EthAddress { hi: 0, lo: 0 } }
    }
}

/// Trusted sender addresses for every channel, configured at setup.
#[derive(Clone, Copy, PartialEq, Eq, Structural, Debug)]
pub struct SourceChannelConfig {
    pub basic: SourceChannel,
    pub incentivized: SourceChannel,
}

impl Default for SourceChannelConfig {
    fn default() -> (r: Self)
        ensures
            r.basic.address.hi == 0 && r.basic.address.lo == 0,
            r.incentivized.address.hi == 0 && r.incentivized.address.lo == 0,
    {
        SourceChannelConfig {
            basic: SourceChannel { address: EthAddress { hi: 0, lo: 0 } },
            incentivized: SourceChannel { address: EthAddress { hi: 0, lo: 0 } },
        }
    }
}

} // verus!
