use bridge_core::assets::AssetId;
use bridge_core::envelope::{decode, DecodeError, Log};
use bridge_core::fraction::RewardFraction;
use bridge_core::inbound::{
    Authorizer, Channel, ConfigError, Dispatcher, SubmitError, Verifier, VerifierError,
};
use bridge_core::ledger::Ledger;
use bridge_core::types::{ChannelId, EthAddress, Hash256, Message, MessageId, Proof};

const SOURCE_ACCOUNT: u64 = 10;
const TREASURY: u64 = 11;
const RELAYER: u64 = 12;

const SRC_HI: u32 = 0x11223344;
const SRC_LO: u128 = 0x5566;

fn channel_address() -> EthAddress {
    EthAddress { hi: 0xaabbccdd, lo: 0x99 }
}

fn envelope_data(src_hi: u32, src_lo: u128, nonce: u64, fee: u128, payload: &[u8]) -> Vec<u8> {
    let mut data = vec![0u8; 12];
    data.extend_from_slice(&src_hi.to_be_bytes());
    data.extend_from_slice(&src_lo.to_be_bytes());
    data.extend_from_slice(&[0u8; 24]);
    data.extend_from_slice(&nonce.to_be_bytes());
    data.extend_from_slice(&[0u8; 16]);
    data.extend_from_slice(&fee.to_be_bytes());
    data.extend_from_slice(payload);
    data
}

fn dummy_message() -> Message {
    Message {
        data: vec![],
        proof: Proof {
            block_hash: Hash256 { hi: 0, lo: 0 },
            tx_index: 0,
            data: (vec![], vec![]),
        },
    }
}

/// Hands out a fixed log for every message.
struct FixedVerifier {
    address: EthAddress,
    data: Vec<u8>,
}

impl Verifier for FixedVerifier {
    fn verify(&self, _message: &Message) -> Result<Log, VerifierError> {
        Ok(Log { address: self.address, data: self.data.clone() })
    }
}

/// Rejects every message.
struct RejectingVerifier;

impl Verifier for RejectingVerifier {
    fn verify(&self, _message: &Message) -> Result<Log, VerifierError> {
        Err(VerifierError { code: 9 })
    }
}

/// Records every dispatched message identifier.
struct RecordingDispatcher {
    ids: Vec<MessageId>,
}

impl Dispatcher for RecordingDispatcher {
    fn dispatch(&mut self, _source: EthAddress, id: MessageId, _payload: &Vec<u8>) {
        self.ids.push(id);
    }
}

/// Authorizes exactly one origin.
struct OneAdmin {
    admin: u64,
}

impl Authorizer for OneAdmin {
    fn authorize(&self, origin: u64) -> bool {
        origin == self.admin
    }
}

fn half_fraction() -> RewardFraction {
    RewardFraction::from_parts(500_000_000)
}

fn test_channel() -> Channel {
    Channel::new(
        channel_address(),
        half_fraction(),
        AssetId::Ether,
        SOURCE_ACCOUNT,
        TREASURY,
    )
}

fn funded_ledger(amount: u128) -> Ledger {
    let mut ledger = Ledger::new();
    assert!(ledger.deposit(AssetId::Ether, SOURCE_ACCOUNT, amount).is_ok());
    ledger
}

#[test]
fn decode_extracts_all_envelope_fields() {
    let data = envelope_data(SRC_HI, SRC_LO, 7, 1000, &[1, 2, 3]);
    let log = Log { address: channel_address(), data };
    let envelope = decode(&log).unwrap();
    assert_eq!(envelope.channel, channel_address());
    assert_eq!(envelope.source, EthAddress { hi: SRC_HI, lo: SRC_LO });
    assert_eq!(envelope.nonce, 7);
    assert_eq!(envelope.fee, 1000);
    assert_eq!(envelope.payload, vec![1, 2, 3]);
}

#[test]
fn decode_rejects_truncated_data() {
    let log = Log { address: channel_address(), data: vec![0u8; 95] };
    assert_eq!(decode(&log).err(), Some(DecodeError::InvalidEnvelope));
}

#[test]
fn decode_rejects_nonzero_padding() {
    let mut data = envelope_data(SRC_HI, SRC_LO, 7, 1000, &[]);
    data[33] = 1;
    let log = Log { address: channel_address(), data };
    assert_eq!(decode(&log).err(), Some(DecodeError::InvalidEnvelope));
}

#[test]
fn from_parts_saturates_at_one() {
    let fraction = RewardFraction::from_parts(2_000_000_000);
    assert_eq!(fraction.parts(), 1_000_000_000);
    assert_eq!(RewardFraction::from_parts(250_000_000).parts(), 250_000_000);
}

#[test]
fn mul_ceil_rounds_up_for_the_relayer() {
    assert_eq!(half_fraction().mul_ceil(5), 3);
    assert_eq!(half_fraction().mul_ceil(4), 2);
    assert_eq!(RewardFraction::from_parts(333_333_333).mul_ceil(10), 4);
    assert_eq!(RewardFraction::from_parts(0).mul_ceil(1000), 0);
    assert_eq!(RewardFraction::from_parts(1_000_000_000).mul_ceil(1000), 1000);
}

#[test]
fn fee_split_sums_to_fee() {
    let fee: u128 = 7;
    let relayer_share = half_fraction().mul_ceil(fee);
    let treasury_share = fee - relayer_share;
    assert_eq!(relayer_share, 4);
    assert_eq!(treasury_share, 3);
    assert_eq!(relayer_share + treasury_share, fee);
}

#[test]
fn accept_nonce_advances_only_on_successor() {
    let mut channel = test_channel();
    assert_eq!(channel.nonce(), 0);
    assert_eq!(
        channel.accept_nonce(0),
        Err(SubmitError::InvalidNonce)
    );
    assert_eq!(
        channel.accept_nonce(2),
        Err(SubmitError::InvalidNonce)
    );
    assert_eq!(channel.nonce(), 0);
    let id = channel.accept_nonce(1).unwrap();
    assert_eq!(id, MessageId { channel_id: ChannelId::Incentivized, nonce: 1 });
    assert_eq!(channel.nonce(), 1);
    assert_eq!(
        channel.accept_nonce(1),
        Err(SubmitError::InvalidNonce)
    );
    assert_eq!(channel.nonce(), 1);
    assert!(channel.accept_nonce(2).is_ok());
    assert_eq!(channel.nonce(), 2);
}

#[test]
fn apportion_fee_splits_between_relayer_and_treasury() {
    let channel = test_channel();
    let mut ledger = funded_ledger(100);
    channel.apportion_fee(&mut ledger, 5, RELAYER);
    assert_eq!(ledger.balance(AssetId::Ether, SOURCE_ACCOUNT), 95);
    assert_eq!(ledger.balance(AssetId::Ether, RELAYER), 3);
    assert_eq!(ledger.balance(AssetId::Ether, TREASURY), 2);
    assert_eq!(ledger.total_issuance(AssetId::Ether), 100);
}

#[test]
fn apportion_fee_of_zero_changes_nothing() {
    let channel = test_channel();
    let mut ledger = funded_ledger(100);
    channel.apportion_fee(&mut ledger, 0, RELAYER);
    assert_eq!(ledger.balance(AssetId::Ether, SOURCE_ACCOUNT), 100);
    assert_eq!(ledger.balance(AssetId::Ether, RELAYER), 0);
    assert_eq!(ledger.balance(AssetId::Ether, TREASURY), 0);
}

#[test]
fn apportion_fee_with_underfunded_source_changes_nothing() {
    let channel = test_channel();
    let mut ledger = funded_ledger(3);
    channel.apportion_fee(&mut ledger, 5, RELAYER);
    assert_eq!(ledger.balance(AssetId::Ether, SOURCE_ACCOUNT), 3);
    assert_eq!(ledger.balance(AssetId::Ether, RELAYER), 0);
    assert_eq!(ledger.balance(AssetId::Ether, TREASURY), 0);
    assert_eq!(ledger.total_issuance(AssetId::Ether), 3);
}

#[test]
fn submit_dispatches_each_nonce_exactly_once() {
    let mut channel = test_channel();
    let mut ledger = funded_ledger(100);
    let mut dispatcher = RecordingDispatcher { ids: vec![] };
    let message = dummy_message();

    let first = FixedVerifier {
        address: channel_address(),
        data: envelope_data(SRC_HI, SRC_LO, 1, 4, &[7]),
    };
    let second = FixedVerifier {
        address: channel_address(),
        data: envelope_data(SRC_HI, SRC_LO, 2, 4, &[8]),
    };

    let id1 = channel
        .submit(&mut ledger, &first, &mut dispatcher, &message, RELAYER)
        .unwrap();
    let id2 = channel
        .submit(&mut ledger, &second, &mut dispatcher, &message, RELAYER)
        .unwrap();
    assert_eq!(id1, MessageId { channel_id: ChannelId::Incentivized, nonce: 1 });
    assert_eq!(id2, MessageId { channel_id: ChannelId::Incentivized, nonce: 2 });

    // replaying an already accepted nonce fails before any dispatch
    assert_eq!(
        channel.submit(&mut ledger, &first, &mut dispatcher, &message, RELAYER),
        Err(SubmitError::InvalidNonce)
    );
    assert_eq!(channel.nonce(), 2);
    assert_eq!(dispatcher.ids, vec![id1, id2]);

    // both fees were charged: 4 each, split 2 and 2
    assert_eq!(ledger.balance(AssetId::Ether, SOURCE_ACCOUNT), 92);
    assert_eq!(ledger.balance(AssetId::Ether, RELAYER), 4);
    assert_eq!(ledger.balance(AssetId::Ether, TREASURY), 4);
    assert_eq!(ledger.total_issuance(AssetId::Ether), 100);
}

#[test]
fn submit_rejects_unknown_source_channel() {
    let mut channel = test_channel();
    let mut ledger = funded_ledger(100);
    let mut dispatcher = RecordingDispatcher { ids: vec![] };
    let verifier = FixedVerifier {
        address: EthAddress { hi: 1, lo: 2 },
        data: envelope_data(SRC_HI, SRC_LO, 1, 4, &[]),
    };
    assert_eq!(
        channel.submit(&mut ledger, &verifier, &mut dispatcher, &dummy_message(), RELAYER),
        Err(SubmitError::InvalidSourceChannel)
    );
    assert_eq!(channel.nonce(), 0);
    assert!(dispatcher.ids.is_empty());
    assert_eq!(ledger.balance(AssetId::Ether, SOURCE_ACCOUNT), 100);
}

#[test]
fn submit_rejects_malformed_envelope() {
    let mut channel = test_channel();
    let mut ledger = funded_ledger(100);
    let mut dispatcher = RecordingDispatcher { ids: vec![] };
    let verifier = FixedVerifier { address: channel_address(), data: vec![1u8; 40] };
    assert_eq!(
        channel.submit(&mut ledger, &verifier, &mut dispatcher, &dummy_message(), RELAYER),
        Err(SubmitError::InvalidEnvelope)
    );
    assert_eq!(channel.nonce(), 0);
    assert!(dispatcher.ids.is_empty());
}

#[test]
fn submit_passes_verifier_error_through() {
    let mut channel = test_channel();
    let mut ledger = funded_ledger(100);
    let mut dispatcher = RecordingDispatcher { ids: vec![] };
    assert_eq!(
        channel.submit(
            &mut ledger,
            &RejectingVerifier,
            &mut dispatcher,
            &dummy_message(),
            RELAYER,
        ),
        Err(SubmitError::Verification(VerifierError { code: 9 }))
    );
    assert_eq!(channel.nonce(), 0);
    assert!(dispatcher.ids.is_empty());
}

#[test]
fn set_reward_fraction_is_gated_by_the_authorizer() {
    let mut channel = test_channel();
    let auth = OneAdmin { admin: 42 };
    let new_fraction = RewardFraction::from_parts(100_000_000);
    assert_eq!(
        channel.set_reward_fraction(&auth, 7, new_fraction),
        Err(ConfigError::BadOrigin)
    );
    assert_eq!(channel.reward_fraction().parts(), 500_000_000);
    assert_eq!(channel.set_reward_fraction(&auth, 42, new_fraction), Ok(()));
    assert_eq!(channel.reward_fraction().parts(), 100_000_000);
}

#[test]
fn updated_fraction_applies_to_next_apportionment() {
    let mut channel = test_channel();
    let auth = OneAdmin { admin: 42 };
    assert!(channel
        .set_reward_fraction(&auth, 42, RewardFraction::from_parts(1_000_000_000))
        .is_ok());
    let mut ledger = funded_ledger(50);
    channel.apportion_fee(&mut ledger, 8, RELAYER);
    assert_eq!(ledger.balance(AssetId::Ether, RELAYER), 8);
    assert_eq!(ledger.balance(AssetId::Ether, TREASURY), 0);
    assert_eq!(ledger.balance(AssetId::Ether, SOURCE_ACCOUNT), 42);
}

#[test]
fn message_id_new_keeps_its_fields() {
    let id = MessageId::new(ChannelId::Basic, 77);
    assert_eq!(id.channel_id, ChannelId::Basic);
    assert_eq!(id.nonce, 77);
}
