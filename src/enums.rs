use vstd::prelude::*;

verus! {

#[derive(Clone, Copy, PartialEq, Eq, Structural, Debug)]
pub enum TransactionDirection {
    Received,
    Sent,
}

/// Where an asset lives, in the encoding of its layer.
#[derive(PartialEq, Eq, Debug)]
pub enum WalletkaAssetLocation {
    Utxo { loc: String },
    LightningChannel { loc: String },
    Cashu { loc: String },
    Fedimint { loc: String },
}

impl Clone for WalletkaAssetLocation {
    fn clone(&self) -> (r: Self)
        ensures
            r == *self,
    {
        match self {
            WalletkaAssetLocation::Utxo { loc } => WalletkaAssetLocation::Utxo { loc: loc.clone() },
            WalletkaAssetLocation::LightningChannel { loc } => WalletkaAssetLocation::LightningChannel {
                loc: loc.clone(),
            },
            WalletkaAssetLocation::Cashu { loc } => WalletkaAssetLocation::Cashu { loc: loc.clone() },
            WalletkaAssetLocation::Fedimint { loc } => WalletkaAssetLocation::Fedimint { loc: loc.clone() },
        }
    }
}

#[derive(Clone, Copy, PartialEq, Eq, Structural, Hash, Debug)]
pub enum WalletkaLayer {
    Blockchain,
    Lightning,
    Cashu,
    Fedimint,
    Rgb,
}

#[derive(Clone, Copy, PartialEq, Eq, Structural, Debug)]
pub enum WalletkaAssetState {
    Unknown,
    Waiting,
    Settled,
    Spent,
    Unspendable,
}

} // verus!
