//! Inbound channel processor: verification handoff, envelope decoding,
//! source-channel authentication, nonce-based replay protection, fee
//! apportionment and dispatch handoff — strictly in that order, with
//! every step up to the nonce check aborting the submission without any
//! side effect.

use vstd::prelude::*;
use crate::types::{ChannelId, EthAddress, Message, MessageId};
use crate::assets::AssetId;
use crate::ledger::{AccountId, Balance, Credit, Ledger};
use crate::fraction::{ceil_mul, RewardFraction};
use crate::envelope::{decode, well_formed, be_val, Envelope, Log};

verus! {

/// Opaque error token reported by an external verifier; passed through
/// unchanged when verification fails.
#[derive(Clone, Copy, PartialEq, Eq, Structural, Debug)]
pub struct VerifierError {
    pub code: u32,
}

/// The external cryptographic/proof verifier: turns a raw relayed
/// message into a trusted log record, or rejects it. Implemented by
/// the host; nothing is assumed of it here.
pub trait Verifier {
    fn verify(&self, message: &Message) -> Result<Log, VerifierError>;
}

/// The downstream message-dispatch target. Fire-and-forget from this
/// component's view: once the nonce advanced, the message counts as
/// processed whatever the dispatcher does with it.
pub trait Dispatcher {
    fn dispatch(&mut self, source: EthAddress, id: MessageId, payload: &Vec<u8>);
}

/// Opaque authorization predicate over a caller identity, gating the
/// reward-fraction update. Implemented by the host.
pub trait Authorizer {
    fn authorize(&self, origin: AccountId) -> bool;
}

/// Why a submission was rejected. All of these leave the channel and
/// the ledger completely unchanged.
#[derive(Clone, Copy, PartialEq, Eq, Structural, Debug)]
pub enum SubmitError {
    /// The external verifier rejected the raw message; its error is
    /// carried through unchanged.
    Verification(VerifierError),
    /// The log's structure does not match the expected envelope shape.
    InvalidEnvelope,
    /// The message did not come from the configured source channel.
    InvalidSourceChannel,
    /// The message's nonce is not exactly the stored nonce plus one.
    InvalidNonce,
}

/// Rejection of the reward-fraction update.
#[derive(Clone, Copy, PartialEq, Eq, Structural, Debug)]
pub enum ConfigError {
    BadOrigin,
}

/// State of one inbound channel: its trusted source address, the
/// replay-protection nonce, the fee configuration, and (as ghost state)
/// the full history of message identifiers handed to the dispatcher.
pub struct Channel {
    source_channel: EthAddress,
    nonce: u64,
    reward_fraction: RewardFraction,
    fee_asset: AssetId,
    source_account: AccountId,
    treasury_account: AccountId,
    history: Ghost<Seq<MessageId>>,
}

impl Channel {
    /// The trusted sender address on the external chain.
    pub closed spec fn spec_source_channel(&self) -> EthAddress {
        self.source_channel
    }

    /// The last accepted nonce; zero before any message was accepted.
    pub closed spec fn spec_nonce(&self) -> u64 {
        self.nonce
    }

    /// The relayer's share of each submission fee.
    pub closed spec fn spec_reward_fraction(&self) -> RewardFraction {
        self.reward_fraction
    }

    /// The asset submission fees are paid in.
    pub closed spec fn spec_fee_asset(&self) -> AssetId {
        self.fee_asset
    }

    /// The account fees are drawn from.
    pub closed spec fn spec_source_account(&self) -> AccountId {
        self.source_account
    }

    /// The account receiving the non-relayer share of fees.
    pub closed spec fn spec_treasury_account(&self) -> AccountId {
        self.treasury_account
    }

    /// The message identifiers handed to the dispatcher, in dispatch
    /// order.
    pub closed spec fn history(&self) -> Seq<MessageId> {
        self.history@
    }

    /// Channel invariant: the fraction is valid, one message was
    /// dispatched per accepted nonce, and the `i`th dispatched message
    /// carried nonce `i + 1` on this channel.
    pub closed spec fn wf(&self) -> bool {
        &&& self.reward_fraction.valid()
        &&& self.history@.len() == self.nonce
        &&& forall|i: int|
            0 <= i < self.history@.len() ==> self.history@[i] == (MessageId {
                channel_id: ChannelId::Incentivized,
                nonce: (i + 1) as u64,
            })
    }

    /// The parts of the channel that only configuration operations may
    /// change.
    pub open spec fn same_config(&self, other: &Channel) -> bool {
        &&& self.spec_source_channel() == other.spec_source_channel()
        &&& self.spec_reward_fraction() == other.spec_reward_fraction()
        &&& self.spec_fee_asset() == other.spec_fee_asset()
        &&& self.spec_source_account() == other.spec_source_account()
        &&& self.spec_treasury_account() == other.spec_treasury_account()
    }

    /// A fresh channel: nonce zero, empty dispatch history.
    pub fn new(
        source_channel: EthAddress,
        reward_fraction: RewardFraction,
        fee_asset: AssetId,
        source_account: AccountId,
        treasury_account: AccountId,
    ) -> (r: Channel)
        requires
            reward_fraction.valid(),
        ensures
            r.wf(),
            r.spec_nonce() == 0,
            r.history() == Seq::<MessageId>::empty(),
            r.spec_source_channel() == source_channel,
            r.spec_reward_fraction() == reward_fraction,
            r.spec_fee_asset() == fee_asset,
            r.spec_source_account() == source_account,
            r.spec_treasury_account() == treasury_account,
    {
        Channel {
            source_channel,
            nonce: 0,
            reward_fraction,
            fee_asset,
            source_account,
            treasury_account,
            history: Ghost(Seq::empty()),
        }
    }

    pub fn nonce(&self) -> (r: u64)
        ensures
            r == self.spec_nonce(),
    {
        self.nonce
    }

    pub fn source_channel(&self) -> (r: EthAddress)
        ensures
            r == self.spec_source_channel(),
    {
        self.source_channel
    }

    pub fn reward_fraction(&self) -> (r: RewardFraction)
        ensures
            r == self.spec_reward_fraction(),
    {
        self.reward_fraction
    }

    /// The nonce sequencer: accept `nonce` exactly when it is the
    /// stored nonce plus one; any other value — replayed, skipped or
    /// out of order — is rejected and the stored nonce is unchanged.
    /// Acceptance commits the message identifier to the dispatch
    /// history.
    pub fn accept_nonce(&mut self, nonce: u64) -> (r: Result<MessageId, SubmitError>)
        requires
            old(self).wf(),
        ensures
            final(self).wf(),
            final(self).same_config(old(self)),
            match r {
                Ok(id) => {
                    &&& old(self).spec_nonce() < u64::MAX
                    &&& nonce == old(self).spec_nonce() + 1
                    &&& final(self).spec_nonce() == nonce
                    &&& id == (MessageId { channel_id: ChannelId::Incentivized, nonce })
                    &&& final(self).history() == old(self).history().push(id)
                },
                Err(SubmitError::InvalidNonce) => {
                    &&& !(old(self).spec_nonce() < u64::MAX && nonce == old(self).spec_nonce() + 1)
                    &&& *final(self) == *old(self)
                },
                _ => false,
            },
    {
        if self.nonce < u64::MAX && nonce == self.nonce + 1 {
            self.nonce = nonce;
            let id = MessageId { channel_id: ChannelId::Incentivized, nonce };
            proof {
                self.history@ = self.history@.push(id);
            }
            Ok(id)
        } else {
            Err(SubmitError::InvalidNonce)
        }
    }

    /// Install a new reward fraction. The mutation itself; callers must
    /// gate it (see `set_reward_fraction`).
    pub fn apply_reward_fraction(&mut self, fraction: RewardFraction)
        requires
            old(self).wf(),
            fraction.valid(),
        ensures
            final(self).wf(),
            final(self).spec_reward_fraction() == fraction,
            final(self).spec_nonce() == old(self).spec_nonce(),
            final(self).history() == old(self).history(),
            final(self).spec_source_channel() == old(self).spec_source_channel(),
            final(self).spec_fee_asset() == old(self).spec_fee_asset(),
            final(self).spec_source_account() == old(self).spec_source_account(),
            final(self).spec_treasury_account() == old(self).spec_treasury_account(),
    {
        self.reward_fraction = fraction;
    }

    /// Update the reward fraction, gated by the host's authorization
    /// predicate over the caller's identity. On rejection nothing
    /// changes; on success only the fraction does.
    pub fn set_reward_fraction<A: Authorizer>(
        &mut self,
        auth: &A,
        origin: AccountId,
        fraction: RewardFraction,
    ) -> (r: Result<(), ConfigError>)
        requires
            old(self).wf(),
            fraction.valid(),
        ensures
            final(self).wf(),
            match r {
                Ok(()) => {
                    &&& final(self).spec_reward_fraction() == fraction
                    &&& final(self).spec_nonce() == old(self).spec_nonce()
                    &&& final(self).history() == old(self).history()
                    &&& final(self).spec_source_channel() == old(self).spec_source_channel()
                    &&& final(self).spec_fee_asset() == old(self).spec_fee_asset()
                    &&& final(self).spec_source_account() == old(self).spec_source_account()
                    &&& final(self).spec_treasury_account() == old(self).spec_treasury_account()
                },
                Err(ConfigError::BadOrigin) => *final(self) == *old(self),
            },
    {
        if auth.authorize(origin) {
            self.apply_reward_fraction(fraction);
            Ok(())
        } else {
            Err(ConfigError::BadOrigin)
        }
    }
}

/// The exact effect of `apportion_fee` on the ledger, covering every
/// aliasing of the source, relayer and treasury accounts and every
/// partial-failure path: nothing happens on a zero fee or when the
/// source account cannot cover it; otherwise the fee leaves the source
/// account and the relayer's ceiling share and the treasury remainder
/// are each credited best-effort (an uncreditable share is burned).
pub open spec fn apportioned(
    ch: Channel,
    pre: Ledger,
    post: Ledger,
    amount: Balance,
    relayer: AccountId,
) -> bool {
    let a = ch.spec_fee_asset();
    let src = ch.spec_source_account();
    let trs = ch.spec_treasury_account();
    let f = amount as int;
    let c = ceil_mul(amount, ch.spec_reward_fraction().spec_parts());
    let t = f - c;
    if amount == 0 || pre.issuance_of(a) < amount || pre.balance_of(a, src) < amount {
        post == pre
    } else {
        let iss_w = pre.issuance_of(a) - f;
        let bal_w_rel = pre.balance_of(a, relayer) - if relayer == src {
            f
        } else {
            0
        };
        let ok1 = iss_w + c <= Balance::MAX && bal_w_rel + c <= Balance::MAX;
        let c1 = if ok1 {
            c
        } else {
            0
        };
        let iss_1 = iss_w + c1;
        let bal_1_trs = pre.balance_of(a, trs) - (if trs == src {
            f
        } else {
            0
        }) + (if ok1 && trs == relayer {
            c
        } else {
            0
        });
        let ok2 = iss_1 + t <= Balance::MAX && bal_1_trs + t <= Balance::MAX;
        let t1 = if ok2 {
            t
        } else {
            0
        };
        &&& forall|x: AccountId|
            #[trigger] post.balance_of(a, x) as int == pre.balance_of(a, x) - (if x == src {
                f
            } else {
                0
            }) + (if ok1 && x == relayer {
                c
            } else {
                0
            }) + (if ok2 && x == trs {
                t
            } else {
                0
            })
        &&& post.issuance_of(a) as int == iss_1 + t1
        &&& post.sum_of(a) == pre.sum_of(a) - f + c1 + t1
        &&& forall|a2: AssetId, x: AccountId|
            a2 != a ==> #[trigger] post.balance_of(a2, x) == pre.balance_of(a2, x)
        &&& forall|a2: AssetId| a2 != a ==> #[trigger] post.issuance_of(a2) == pre.issuance_of(a2)
        &&& forall|a2: AssetId| a2 != a ==> #[trigger] post.sum_of(a2) == pre.sum_of(a2)
    }
}

impl Channel {
    /// Pay the message submission fee to the relayer and the treasury.
    /// Best-effort by design: a fee that cannot be charged, or a share
    /// that cannot be credited, never blocks message processing. The
    /// relayer's share rounds up (`ceil`), the treasury takes the
    /// remainder, so the two shares always sum to the fee withdrawn.
    pub fn apportion_fee(&self, ledger: &mut Ledger, amount: Balance, relayer: AccountId)
        requires
            self.wf(),
            old(ledger).wf(),
        ensures
            final(ledger).wf(),
            old(ledger).conserved() ==> final(ledger).conserved(),
            apportioned(*self, *old(ledger), *final(ledger), amount, relayer),
    {
        if amount == 0 {
            return ;
        }
        let credit = match ledger.withdraw_to_credit(
            self.fee_asset,
            self.source_account,
            amount,
        ) {
            Ok(c) => c,
            Err(_) => {
                // the host logs this; the submission itself proceeds
                return ;
            },
        };
        let reward = self.reward_fraction.mul_ceil(amount);
        let (relayer_portion, treasury_portion) = credit.split(reward);
        // each credit is independent: a failed one is burned, the other
        // is still attempted
        match ledger.resolve(relayer, relayer_portion) {
            Ok(()) => (),
            Err(burned) => {
                let _ = burned;
            },
        }
        match ledger.resolve(self.treasury_account, treasury_portion) {
            Ok(()) => (),
            Err(burned) => {
                let _ = burned;
            },
        }
    }

    /// Process a verified log record: decode, authenticate the source
    /// channel, sequence the nonce, apportion the fee, dispatch. The
    /// contract pins every outcome: which error each log earns, and on
    /// success the exact nonce advance, dispatch-history extension and
    /// ledger movement.
    pub fn process_log<D: Dispatcher>(
        &mut self,
        ledger: &mut Ledger,
        dispatcher: &mut D,
        log: &Log,
        relayer: AccountId,
    ) -> (r: Result<MessageId, SubmitError>)
        requires
            old(self).wf(),
            old(ledger).wf(),
        ensures
            final(self).wf(),
            final(ledger).wf(),
            old(ledger).conserved() ==> final(ledger).conserved(),
            final(self).same_config(old(self)),
            match r {
                Ok(id) => {
                    &&& well_formed(log.data@)
                    &&& log.address == old(self).spec_source_channel()
                    &&& old(self).spec_nonce() < u64::MAX
                    &&& be_val(log.data@.subrange(56, 64)) == old(self).spec_nonce() + 1
                    &&& id == (MessageId {
                        channel_id: ChannelId::Incentivized,
                        nonce: (old(self).spec_nonce() + 1) as u64,
                    })
                    &&& final(self).spec_nonce() == old(self).spec_nonce() + 1
                    &&& final(self).history() == old(self).history().push(id)
                    &&& apportioned(
                        *old(self),
                        *old(ledger),
                        *final(ledger),
                        be_val(log.data@.subrange(80, 96)) as u128,
                        relayer,
                    )
                },
                Err(SubmitError::InvalidEnvelope) => {
                    &&& !well_formed(log.data@)
                    &&& *final(self) == *old(self)
                    &&& *final(ledger) == *old(ledger)
                },
                Err(SubmitError::InvalidSourceChannel) => {
                    &&& well_formed(log.data@)
                    &&& log.address != old(self).spec_source_channel()
                    &&& *final(self) == *old(self)
                    &&& *final(ledger) == *old(ledger)
                },
                Err(SubmitError::InvalidNonce) => {
                    &&& well_formed(log.data@)
                    &&& log.address == old(self).spec_source_channel()
                    &&& !(old(self).spec_nonce() < u64::MAX && be_val(log.data@.subrange(56, 64))
                        == old(self).spec_nonce() + 1)
                    &&& *final(self) == *old(self)
                    &&& *final(ledger) == *old(ledger)
                },
                Err(SubmitError::Verification(_)) => false,
            },
    {
        let envelope: Envelope = match decode(log) {
            Ok(e) => e,
            Err(_) => {
                return Err(SubmitError::InvalidEnvelope);
            },
        };
        if !(envelope.channel == self.source_channel) {
            return Err(SubmitError::InvalidSourceChannel);
        }
        let id = match self.accept_nonce(envelope.nonce) {
            Ok(id) => id,
            Err(e) => {
                return Err(e);
            },
        };
        self.apportion_fee(ledger, envelope.fee, relayer);
        dispatcher.dispatch(envelope.source, id, &envelope.payload);
        Ok(id)
    }

    /// Submit a raw relayed message: hand it to the external verifier,
    /// then run the verified processing pipeline on the returned log.
    /// Whatever the verifier does, a failed submission leaves channel
    /// and ledger untouched, and a successful one advances the nonce by
    /// exactly one and dispatches exactly one message identifier.
    pub fn submit<V: Verifier, D: Dispatcher>(
        &mut self,
        ledger: &mut Ledger,
        verifier: &V,
        dispatcher: &mut D,
        message: &Message,
        relayer: AccountId,
    ) -> (r: Result<MessageId, SubmitError>)
        requires
            old(self).wf(),
            old(ledger).wf(),
        ensures
            final(self).wf(),
            final(ledger).wf(),
            old(ledger).conserved() ==> final(ledger).conserved(),
            final(self).same_config(old(self)),
            match r {
                Ok(id) => {
                    &&& old(self).spec_nonce() < u64::MAX
                    &&& id == (MessageId {
                        channel_id: ChannelId::Incentivized,
                        nonce: (old(self).spec_nonce() + 1) as u64,
                    })
                    &&& final(self).spec_nonce() == old(self).spec_nonce() + 1
                    &&& final(self).history() == old(self).history().push(id)
                },
                Err(_) => {
                    &&& *final(self) == *old(self)
                    &&& *final(ledger) == *old(ledger)
                },
            },
    {
        let log = match verifier.verify(message) {
            Ok(l) => l,
            Err(e) => {
                return Err(SubmitError::Verification(e));
            },
        };
        self.process_log(ledger, dispatcher, &log, relayer)
    }
}

/// Exactly-once dispatch: on a well-formed channel the dispatched
/// message identifiers are strictly increasing by nonce, so no
/// identifier is ever handed to the dispatcher twice.
pub proof fn lemma_dispatch_exactly_once(ch: Channel)
    requires
        ch.wf(),
    ensures
        forall|i: int, j: int|
            0 <= i < j < ch.history().len() ==> ch.history()[i].nonce < ch.history()[j].nonce,
        forall|i: int, j: int|
            0 <= i < j < ch.history().len() ==> ch.history()[i] != ch.history()[j],
{
}

} // verus!
