//! Asset identifiers for the multi-asset ledger.

use vstd::prelude::*;
use crate::types::EthAddress;

verus! {

/// Discriminated asset identifier: the native bridged asset, or a
/// foreign token identified by its 20-byte external contract address.
#[derive(Clone, Copy, PartialEq, Eq, Structural, Debug, Hash)]
pub enum AssetId {
    Ether,
    Token(EthAddress),
}

impl Default for AssetId {
    fn default() -> (r: Self)
        ensures
            r == AssetId::Ether,
    {
        AssetId::Ether
    }
}

} // verus!
