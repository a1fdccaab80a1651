use vstd::prelude::*;

use crate::amount::{Amount, Currency};
use crate::cashu::{CashuProof, PendingCashuToken};
use crate::rgb::{RgbAsset, RgbUtxo};
use crate::txo::Txo;
use crate::enums::{WalletkaAssetLocation, WalletkaAssetState, WalletkaLayer};

verus! {

/// One unit of value held on some layer.
#[derive(PartialEq, Eq, Debug)]
pub struct WalletkaAsset {
    pub layer: WalletkaLayer,
    pub asset_location: WalletkaAssetLocation,
    pub asset_state: WalletkaAssetState,
    pub amount: Amount,
}

impl Clone for WalletkaAsset {
    fn clone(&self) -> (r: Self)
        ensures
            r == *self,
    {
        WalletkaAsset {
            layer: self.layer,
            asset_location: self.asset_location.clone(),
            asset_state: self.asset_state,
            amount: self.amount.clone(),
        }
    }
}

/// The decimal digit `d`.
pub open spec fn digit_char(d: nat) -> char {
    if d == 0 {
        '0'
    } else if d == 1 {
        '1'
    } else if d == 2 {
        '2'
    } else if d == 3 {
        '3'
    } else if d == 4 {
        '4'
    } else if d == 5 {
        '5'
    } else if d == 6 {
        '6'
    } else if d == 7 {
        '7'
    } else if d == 8 {
        '8'
    } else {
        '9'
    }
}

/// The decimal notation of `n`, without leading zeros.
pub open spec fn decimal(n: nat) -> Seq<char>
    decreases n,
{
    if n < 10 {
        seq![digit_char(n)]
    } else {
        decimal(n / 10).push(digit_char(n % 10))
    }
}

/// Relies on u32's `Display` (through `ToString`): decimal digits without
/// sign or leading zeros.
#[verifier::external_body]
fn u32_to_decimal(n: u32) -> (r: String)
    ensures
        r@ == decimal(n as nat),
{
    n.to_string()
}

/// The location text of an output: "txid:vout".
pub open spec fn outpoint_text(txid: Seq<char>, vout: u32) -> Seq<char> {
    txid + ":"@ + decimal(vout as nat)
}

fn outpoint(txid: &String, vout: u32) -> (r: String)
    ensures
        r@ == outpoint_text(txid@, vout),
{
    let n = u32_to_decimal(vout);
    txid.clone().concat(":").concat(n.as_str())
}

pub open spec fn location_is(l: WalletkaAssetLocation, text: Seq<char>, cashu: bool) -> bool {
    if cashu {
        l is Cashu && l->Cashu_loc@ == text
    } else {
        l is Utxo && l->Utxo_loc@ == text
    }
}

/// `a` is the asset of on-chain output `t`: spent outputs are Spent, others Settled.
pub open spec fn is_txo_asset(t: Txo, a: WalletkaAsset) -> bool {
    &&& a.layer == WalletkaLayer::Blockchain
    &&& location_is(a.asset_location, outpoint_text(t.tx_id@, t.vout), false)
    &&& a.asset_state == if t.spent {
        WalletkaAssetState::Spent
    } else {
        WalletkaAssetState::Settled
    }
    &&& a.amount.value == t.amount_sats
    &&& a.amount.currency.is_bitcoin()
}

/// `a` is the asset of stored proof `p`, which is Settled.
pub open spec fn is_proof_asset(p: CashuProof, a: WalletkaAsset) -> bool {
    &&& a.layer == WalletkaLayer::Cashu
    &&& location_is(a.asset_location, p.id.unwrap()@, true)
    &&& a.asset_state == WalletkaAssetState::Settled
    &&& a.amount.value == p.amount_sat
    &&& a.amount.currency.is_bitcoin()
}

/// `a` is the asset of pending token `t`, which is Waiting whatever its source.
pub open spec fn is_pending_asset(t: PendingCashuToken, a: WalletkaAsset) -> bool {
    &&& a.layer == WalletkaLayer::Cashu
    &&& location_is(a.asset_location, t.id.unwrap()@, true)
    &&& a.asset_state == WalletkaAssetState::Waiting
    &&& a.amount.value == t.amount_sat
    &&& a.amount.currency.is_bitcoin()
}

/// `a` is the asset of colorable output `u`, which is locked (Unspendable).
pub open spec fn is_rgb_utxo_asset(u: RgbUtxo, a: WalletkaAsset) -> bool {
    &&& a.layer == WalletkaLayer::Rgb
    &&& location_is(a.asset_location, outpoint_text(u.txid@, u.vout), false)
    &&& a.asset_state == WalletkaAssetState::Unspendable
    &&& a.amount.value == u.btc_amount
    &&& a.amount.currency.is_bitcoin()
}

/// `a` is the asset of allocation `x`: its settled quantity, in a currency
/// named after the asset's ticker, in state Unknown.
pub open spec fn is_rgb_asset_asset(x: RgbAsset, a: WalletkaAsset) -> bool {
    &&& a.layer == WalletkaLayer::Rgb
    &&& location_is(a.asset_location, x.asset_id@, false)
    &&& a.asset_state == WalletkaAssetState::Unknown
    &&& a.amount.value == x.balance.settled
    &&& a.amount.currency.symbol@ == x.ticker@
    &&& a.amount.currency.name@ == x.name@
    &&& a.amount.currency.base_unit_symbol@ == x.ticker@
    &&& a.amount.currency.decimals == x.precision as u64
}

impl WalletkaAsset {
    pub fn from_txo(value: &Txo) -> (r: Self)
        ensures
            is_txo_asset(*value, r),
    {
        WalletkaAsset {
            layer: WalletkaLayer::Blockchain,
            asset_location: WalletkaAssetLocation::Utxo { loc: outpoint(&value.tx_id, value.vout) },
            asset_state: if value.spent {
                WalletkaAssetState::Spent
            } else {
                WalletkaAssetState::Settled
            },
            amount: Amount::new(value.amount_sats, Currency::bitcoin()),
        }
    }

    pub fn from_cashu_proof(value: &CashuProof) -> (r: Self)
        requires
            value.id is Some,
        ensures
            is_proof_asset(*value, r),
    {
        let loc = match &value.id {
            Some(id) => id.clone(),
            None => String::new(),
        };
        WalletkaAsset {
            layer: WalletkaLayer::Cashu,
            asset_location: WalletkaAssetLocation::Cashu { loc },
            asset_state: WalletkaAssetState::Settled,
            amount: Amount::new(value.amount_sat, Currency::bitcoin()),
        }
    }

    pub fn from_pending_token(value: &PendingCashuToken) -> (r: Self)
        requires
            value.id is Some,
        ensures
            is_pending_asset(*value, r),
    {
        let loc = match &value.id {
            Some(id) => id.clone(),
            None => String::new(),
        };
        WalletkaAsset {
            layer: WalletkaLayer::Cashu,
            asset_location: WalletkaAssetLocation::Cashu { loc },
            asset_state: WalletkaAssetState::Waiting,
            amount: Amount::new(value.amount_sat, Currency::bitcoin()),
        }
    }

    pub fn from_rgb_utxo(value: &RgbUtxo) -> (r: Self)
        ensures
            is_rgb_utxo_asset(*value, r),
    {
        WalletkaAsset {
            layer: WalletkaLayer::Rgb,
            asset_location: WalletkaAssetLocation::Utxo { loc: outpoint(&value.txid, value.vout) },
            asset_state: WalletkaAssetState::Unspendable,
            amount: Amount::new(value.btc_amount, Currency::bitcoin()),
        }
    }

    pub fn from_rgb_asset(value: &RgbAsset) -> (r: Self)
        ensures
            is_rgb_asset_asset(*value, r),
    {
        let currency = Currency::new(
            value.ticker.clone(),
            value.name.clone(),
            value.ticker.clone(),
            value.precision as u64,
        );
        WalletkaAsset {
            layer: WalletkaLayer::Rgb,
            asset_location: WalletkaAssetLocation::Utxo { loc: value.asset_id.clone() },
            asset_state: WalletkaAssetState::Unknown,
            amount: Amount::new(value.balance.settled, currency),
        }
    }
}

} // verus!
