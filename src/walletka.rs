use vstd::prelude::*;

use crate::asset::{
    is_pending_asset, is_proof_asset, is_rgb_asset_asset, is_rgb_utxo_asset, is_txo_asset,
    WalletkaAsset,
};
use crate::balance::{
    amount_key, balance_with_filter, filtered, is_balance_of, lemma_same_assets_same_balance,
    lemma_same_value_total, same_balance, same_for_balance, value_total, WalletkaBalance,
};
use crate::cashu::{proofs_total, CashuMint, CashuProof};
use crate::cashu_wallet::{lemma_stored_all_total, stored_all, CashuWallet};
use crate::enums::{WalletkaAssetState, WalletkaLayer};
use crate::errors::WalletError;
use crate::rgb::{RgbUtxo, RgbWallet};
use crate::txo::Txo;

verus! {

/// The outputs to which assets can be allocated, in order.
pub open spec fn colorable(s: Seq<RgbUtxo>) -> Seq<RgbUtxo>
    decreases s.len(),
{
    if s.len() == 0 {
        seq![]
    } else {
        let rest = colorable(s.drop_last());
        if s.last().colorable {
            rest.push(s.last())
        } else {
            rest
        }
    }
}

/// A layer wallet that synchronizes with its network.
pub trait NestedWallet {
    fn sync(&self) -> Result<(), WalletError>;
}

/// The wallet over all layers: the on-chain outputs last listed, the e-cash
/// wallet and the smart-contract asset wallet.
pub struct Walletka {
    utxos: Vec<Txo>,
    cashu_wallet: CashuWallet,
    rgb_wallet: RgbWallet,
}

impl Walletka {
    pub closed spec fn utxos(&self) -> Seq<Txo> {
        self.utxos@
    }

    pub closed spec fn cashu(&self) -> CashuWallet {
        self.cashu_wallet
    }

    pub closed spec fn rgb(&self) -> RgbWallet {
        self.rgb_wallet
    }

    pub open spec fn wf(&self) -> bool {
        self.cashu().wf() && self.rgb().wf()
    }

    /// `r` lists the assets of every layer in a fixed order: on-chain outputs,
    /// e-cash proofs, pending e-cash tokens, colorable outputs of the asset
    /// layer, then its asset allocations.
    pub open spec fn assets_of(&self, r: Seq<WalletkaAsset>) -> bool {
        let a = self.utxos();
        let b = self.cashu().proofs();
        let c = self.cashu().pending_tokens();
        let d = colorable(self.rgb().unspents());
        let e = self.rgb().assets();
        let o1 = a.len() as int;
        let o2 = o1 + b.len();
        let o3 = o2 + c.len();
        let o4 = o3 + d.len();
        &&& r.len() == o4 + e.len()
        &&& forall|k: int| 0 <= k < a.len() ==> is_txo_asset(a[k], #[trigger] r[k])
        &&& forall|k: int| 0 <= k < b.len() ==> is_proof_asset(b[k], #[trigger] r[o1 + k])
        &&& forall|k: int| 0 <= k < c.len() ==> is_pending_asset(c[k], #[trigger] r[o2 + k])
        &&& forall|k: int| 0 <= k < d.len() ==> is_rgb_utxo_asset(d[k], #[trigger] r[o3 + k])
        &&& forall|k: int| 0 <= k < e.len() ==> is_rgb_asset_asset(e[k], #[trigger] r[o4 + k])
    }

    pub fn new(utxos: Vec<Txo>, cashu_wallet: CashuWallet, rgb_wallet: RgbWallet) -> (r: Self)
        ensures
            r.utxos() == utxos@,
            r.cashu() == cashu_wallet,
            r.rgb() == rgb_wallet,
    {
        Walletka { utxos, cashu_wallet, rgb_wallet }
    }

    /// Replaces the on-chain outputs with a fresh listing.
    pub fn set_bitcoin_utxos(&mut self, utxos: Vec<Txo>)
        ensures
            final(self).utxos() == utxos@,
            final(self).cashu() == old(self).cashu(),
            final(self).rgb() == old(self).rgb(),
    {
        self.utxos = utxos;
    }

    pub fn cashu_wallet(&self) -> (r: &CashuWallet)
        ensures
            *r == self.cashu(),
    {
        &self.cashu_wallet
    }

    pub fn cashu_wallet_mut(&mut self) -> (r: &mut CashuWallet)
        ensures
            *r == old(self).cashu(),
            final(self).cashu() == *final(r),
            final(self).utxos() == old(self).utxos(),
            final(self).rgb() == old(self).rgb(),
    {
        &mut self.cashu_wallet
    }

    pub fn rgb_wallet(&self) -> (r: &RgbWallet)
        ensures
            *r == self.rgb(),
    {
        &self.rgb_wallet
    }

    pub fn rgb_wallet_mut(&mut self) -> (r: &mut RgbWallet)
        ensures
            *r == old(self).rgb(),
            final(self).rgb() == *final(r),
            final(self).utxos() == old(self).utxos(),
            final(self).cashu() == old(self).cashu(),
    {
        &mut self.rgb_wallet
    }

    /// The known e-cash mints.
    pub fn get_cashu_mints(&self) -> (r: Vec<CashuMint>)
        requires
            self.wf(),
        ensures
            r@ == self.cashu().mints(),
    {
        self.cashu_wallet.get_mints()
    }

    /// All assets held, layer by layer.
    pub fn get_assets(&self) -> (r: Vec<WalletkaAsset>)
        requires
            self.wf(),
        ensures
            self.assets_of(r@),
    {
        let mut r: Vec<WalletkaAsset> = Vec::new();
        let mut k: usize = 0;
        while k < self.utxos.len()
            invariant
                k <= self.utxos.len(),
                r@.len() == k,
                forall|j: int| 0 <= j < k ==> is_txo_asset(self.utxos@[j], #[trigger] r@[j]),
            decreases self.utxos.len() - k,
        {
            r.push(WalletkaAsset::from_txo(&self.utxos[k]));
            k += 1;
        }
        let ghost o1 = r@.len() as int;
        let proofs = self.cashu_wallet.get_proofs();
        k = 0;
        while k < proofs.len()
            invariant
                k <= proofs.len(),
                proofs@ == self.cashu().proofs(),
                self.wf(),
                r@.len() == o1 + k,
                o1 == self.utxos().len(),
                forall|j: int| 0 <= j < o1 ==> is_txo_asset(self.utxos@[j], #[trigger] r@[j]),
                forall|j: int| 0 <= j < k ==> is_proof_asset(proofs@[j], #[trigger] r@[o1 + j]),
            decreases proofs.len() - k,
        {
            r.push(WalletkaAsset::from_cashu_proof(&proofs[k]));
            k += 1;
        }
        let ghost o2 = r@.len() as int;
        let pending = self.cashu_wallet.get_pending_tokens();
        k = 0;
        while k < pending.len()
            invariant
                k <= pending.len(),
                proofs@ == self.cashu().proofs(),
                pending@ == self.cashu().pending_tokens(),
                self.wf(),
                r@.len() == o2 + k,
                o1 == self.utxos().len(),
                o2 == o1 + proofs@.len(),
                forall|j: int| 0 <= j < o1 ==> is_txo_asset(self.utxos@[j], #[trigger] r@[j]),
                forall|j: int| 0 <= j < proofs@.len() ==> is_proof_asset(proofs@[j], #[trigger] r@[o1 + j]),
                forall|j: int| 0 <= j < k ==> is_pending_asset(pending@[j], #[trigger] r@[o2 + j]),
            decreases pending.len() - k,
        {
            r.push(WalletkaAsset::from_pending_token(&pending[k]));
            k += 1;
        }
        let ghost o3 = r@.len() as int;
        let unspents = self.rgb_wallet.get_utxos();
        let ghost us = unspents@;
        let ghost d = colorable(us);
        k = 0;
        while k < unspents.len()
            invariant
                k <= unspents.len(),
                us == unspents@,
                us == self.rgb().unspents(),
                d == colorable(us),
                proofs@ == self.cashu().proofs(),
                pending@ == self.cashu().pending_tokens(),
                r@.len() == o3 + colorable(us.take(k as int)).len(),
                o1 == self.utxos().len(),
                o2 == o1 + proofs@.len(),
                o3 == o2 + pending@.len(),
                forall|j: int| 0 <= j < o1 ==> is_txo_asset(self.utxos@[j], #[trigger] r@[j]),
                forall|j: int| 0 <= j < proofs@.len() ==> is_proof_asset(proofs@[j], #[trigger] r@[o1 + j]),
                forall|j: int| 0 <= j < pending@.len() ==> is_pending_asset(pending@[j], #[trigger] r@[o2 + j]),
                forall|j: int|
                    0 <= j < colorable(us.take(k as int)).len() ==> is_rgb_utxo_asset(
                        colorable(us.take(k as int))[j],
                        #[trigger] r@[o3 + j],
                    ),
            decreases unspents.len() - k,
        {
            proof {
                assert(us.take(k + 1).drop_last() =~= us.take(k as int));
            }
            if unspents[k].colorable {
                r.push(WalletkaAsset::from_rgb_utxo(&unspents[k]));
            }
            k += 1;
        }
        proof {
            assert(us.take(k as int) =~= us);
        }
        let ghost o4 = r@.len() as int;
        let assets = self.rgb_wallet.get_rgb20_assets();
        k = 0;
        while k < assets.len()
            invariant
                k <= assets.len(),
                assets@ == self.rgb().assets(),
                us == self.rgb().unspents(),
                d == colorable(us),
                proofs@ == self.cashu().proofs(),
                pending@ == self.cashu().pending_tokens(),
                r@.len() == o4 + k,
                o1 == self.utxos().len(),
                o2 == o1 + proofs@.len(),
                o3 == o2 + pending@.len(),
                o4 == o3 + d.len(),
                forall|j: int| 0 <= j < o1 ==> is_txo_asset(self.utxos@[j], #[trigger] r@[j]),
                forall|j: int| 0 <= j < proofs@.len() ==> is_proof_asset(proofs@[j], #[trigger] r@[o1 + j]),
                forall|j: int| 0 <= j < pending@.len() ==> is_pending_asset(pending@[j], #[trigger] r@[o2 + j]),
                forall|j: int| 0 <= j < d.len() ==> is_rgb_utxo_asset(d[j], #[trigger] r@[o3 + j]),
                forall|j: int| 0 <= j < k ==> is_rgb_asset_asset(assets@[j], #[trigger] r@[o4 + j]),
            decreases assets.len() - k,
        {
            r.push(WalletkaAsset::from_rgb_asset(&assets[k]));
            k += 1;
        }
        r
    }

    /// `r` is what a balance query with `currency_symbol` answers on this wallet.
    pub open spec fn balance_result(
        &self,
        currency_symbol: Option<String>,
        r: Result<WalletkaBalance, WalletError>,
    ) -> bool {
        exists|assets: Seq<WalletkaAsset>|
            #![trigger self.assets_of(assets)]
            self.assets_of(assets) && {
                &&& value_total(assets) > u64::MAX ==> r == Err::<WalletkaBalance, WalletError>(
                    WalletError::AmountOverflow,
                )
                &&& value_total(assets) <= u64::MAX ==> r is Ok && is_balance_of(
                    r.unwrap(),
                    filtered(assets, currency_symbol),
                )
            }
    }

    /// The balance over all assets, restricted to one currency symbol when one
    /// is given. Fails when the values of all assets add up past 64 bits.
    pub fn get_balance(&self, currency_symbol: Option<String>) -> (r: Result<
        WalletkaBalance,
        WalletError,
    >)
        requires
            self.wf(),
        ensures
            self.balance_result(currency_symbol, r),
    {
        let assets = self.get_assets();
        let mut total: u64 = 0;
        let mut k: usize = 0;
        while k < assets.len()
            invariant
                k <= assets.len(),
                self.assets_of(assets@),
                total == value_total(assets@.take(k as int)),
            decreases assets.len() - k,
        {
            proof {
                assert(assets@.take(k + 1).drop_last() =~= assets@.take(k as int));
            }
            match total.checked_add(assets[k].amount.value) {
                Some(t) => {
                    total = t;
                },
                None => {
                    proof {
                        assert(assets@.take(k + 1).last() == assets@[k as int]);
                        crate::balance::lemma_value_total_prefix(assets@, k + 1);
                        assert(value_total(assets@) > u64::MAX);
                        assert(self.assets_of(assets@));
                    }
                    return Err(WalletError::AmountOverflow);
                },
            }
            k += 1;
        }
        proof {
            assert(assets@.take(k as int) =~= assets@);
        }
        Ok(balance_with_filter(&assets, currency_symbol))
    }
}

/// Two asset listings of one wallet agree on everything a balance reads.
proof fn lemma_assets_of_same(w: Walletka, a1: Seq<WalletkaAsset>, a2: Seq<WalletkaAsset>)
    requires
        w.assets_of(a1),
        w.assets_of(a2),
    ensures
        same_for_balance(a1, a2),
{
    let o1 = w.utxos().len() as int;
    let o2 = o1 + w.cashu().proofs().len();
    let o3 = o2 + w.cashu().pending_tokens().len();
    let o4 = o3 + colorable(w.rgb().unspents()).len();
    assert forall|k: int| 0 <= k < a1.len() implies (#[trigger] a1[k]).asset_state == a2[k].asset_state
        && amount_key(a1[k].amount) == amount_key(a2[k].amount) by {
        if k < o1 {
        } else if k < o2 {
            assert(a1[o1 + (k - o1)] == a1[k]);
            assert(a2[o1 + (k - o1)] == a2[k]);
        } else if k < o3 {
            assert(a1[o2 + (k - o2)] == a1[k]);
            assert(a2[o2 + (k - o2)] == a2[k]);
        } else if k < o4 {
            assert(a1[o3 + (k - o3)] == a1[k]);
            assert(a2[o3 + (k - o3)] == a2[k]);
        } else {
            assert(a1[o4 + (k - o4)] == a1[k]);
            assert(a2[o4 + (k - o4)] == a2[k]);
        }
    }
}

/// Asking a wallet for its balance twice, with no change in between, gives
/// the same answer: the same failure, or balances with the same contents.
pub proof fn lemma_balance_idempotent(
    w: Walletka,
    currency_symbol: Option<String>,
    r1: Result<WalletkaBalance, WalletError>,
    r2: Result<WalletkaBalance, WalletError>,
)
    requires
        w.balance_result(currency_symbol, r1),
        w.balance_result(currency_symbol, r2),
    ensures
        r1 is Err <==> r2 is Err,
        r1 is Err ==> r1 == r2,
        r1 is Ok ==> same_balance(r1.unwrap(), r2.unwrap()),
{
    let a1 = choose|assets: Seq<WalletkaAsset>|
        #![trigger w.assets_of(assets)]
        w.assets_of(assets) && {
            &&& value_total(assets) > u64::MAX ==> r1 == Err::<WalletkaBalance, WalletError>(
                WalletError::AmountOverflow,
            )
            &&& value_total(assets) <= u64::MAX ==> r1 is Ok && is_balance_of(
                r1.unwrap(),
                filtered(assets, currency_symbol),
            )
        };
    let a2 = choose|assets: Seq<WalletkaAsset>|
        #![trigger w.assets_of(assets)]
        w.assets_of(assets) && {
            &&& value_total(assets) > u64::MAX ==> r2 == Err::<WalletkaBalance, WalletError>(
                WalletError::AmountOverflow,
            )
            &&& value_total(assets) <= u64::MAX ==> r2 is Ok && is_balance_of(
                r2.unwrap(),
                filtered(assets, currency_symbol),
            )
        };
    lemma_assets_of_same(w, a1, a2);
    lemma_same_value_total(a1, a2);
    if value_total(a1) <= u64::MAX {
        lemma_same_assets_same_balance(a1, a2, currency_symbol, r1.unwrap(), r2.unwrap());
    }
}

proof fn lemma_proof_assets_total(proofs: Seq<CashuProof>, assets: Seq<WalletkaAsset>)
    requires
        proofs.len() == assets.len(),
        forall|k: int| 0 <= k < proofs.len() ==> is_proof_asset(proofs[k], #[trigger] assets[k]),
    ensures
        value_total(assets) == proofs_total(proofs),
    decreases proofs.len(),
{
    if proofs.len() > 0 {
        assert forall|k: int| 0 <= k < proofs.drop_last().len() implies is_proof_asset(
            proofs.drop_last()[k],
            #[trigger] assets.drop_last()[k],
        ) by {
            assert(proofs.drop_last()[k] == proofs[k] && assets.drop_last()[k] == assets[k]);
        }
        lemma_proof_assets_total(proofs.drop_last(), assets.drop_last());
        assert(is_proof_asset(proofs[proofs.len() - 1], assets[assets.len() - 1]));
    }
}

/// Claiming proofs worth `V` into a wallet that holds none leaves stored
/// proofs worth exactly `V`, which the asset listing shows as settled e-cash
/// assets worth `V` in all.
pub proof fn lemma_claim_increases_balance(
    before: Walletka,
    received: Seq<CashuProof>,
    after: Walletka,
    assets: Seq<WalletkaAsset>,
)
    requires
        before.cashu().proofs().len() == 0,
        stored_all(before.cashu().proofs(), received, after.cashu().proofs()),
        after.assets_of(assets),
    ensures
        proofs_total(after.cashu().proofs()) == proofs_total(received),
        ({
            let o1 = after.utxos().len() as int;
            let seg = assets.subrange(o1, o1 + after.cashu().proofs().len());
            &&& value_total(seg) == proofs_total(received)
            &&& forall|k: int|
                0 <= k < seg.len() ==> (#[trigger] seg[k]).asset_state == WalletkaAssetState::Settled
                    && seg[k].layer == WalletkaLayer::Cashu
        }),
{
    lemma_stored_all_total(before.cashu().proofs(), received, after.cashu().proofs());
    let o1 = after.utxos().len() as int;
    let p = after.cashu().proofs();
    let seg = assets.subrange(o1, o1 + p.len());
    assert forall|k: int| 0 <= k < p.len() implies is_proof_asset(p[k], #[trigger] seg[k]) by {
        assert(seg[k] == assets[o1 + k]);
    }
    lemma_proof_assets_total(p, seg);
}

} // verus!
