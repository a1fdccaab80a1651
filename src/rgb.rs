use vstd::prelude::*;

use crate::errors::WalletError;

verus! {

/// An on-chain output as the smart-contract asset layer sees it.
#[derive(PartialEq, Eq, Debug)]
pub struct RgbUtxo {
    /// Transaction id, hex-encoded.
    pub txid: String,
    pub vout: u32,
    pub btc_amount: u64,
    /// Whether assets can be allocated to it.
    pub colorable: bool,
}

impl Clone for RgbUtxo {
    fn clone(&self) -> (r: Self)
        ensures
            r == *self,
    {
        RgbUtxo {
            txid: self.txid.clone(),
            vout: self.vout,
            btc_amount: self.btc_amount,
            colorable: self.colorable,
        }
    }
}

/// The quantities of a fungible asset.
#[derive(Clone, Copy, PartialEq, Eq, Structural, Debug)]
pub struct RgbBalance {
    pub settled: u64,
    pub future: u64,
    pub spendable: u64,
}

/// A fungible smart-contract asset held by the wallet.
#[derive(PartialEq, Eq, Debug)]
pub struct RgbAsset {
    pub asset_id: String,
    pub ticker: String,
    pub name: String,
    pub precision: u8,
    pub balance: RgbBalance,
}

impl Clone for RgbAsset {
    fn clone(&self) -> (r: Self)
        ensures
            r == *self,
    {
        RgbAsset {
            asset_id: self.asset_id.clone(),
            ticker: self.ticker.clone(),
            name: self.name.clone(),
            precision: self.precision,
            balance: self.balance,
        }
    }
}

/// Transfer states a refresh can be restricted to.
#[derive(Clone, Copy, PartialEq, Eq, Structural, Debug)]
pub enum RefreshTransferStatus {
    WaitingCounterparty,
    WaitingConfirmations,
}

/// One restriction of a refresh: transfers in `status`, incoming or outgoing.
#[derive(Clone, Copy, PartialEq, Eq, Structural, Debug)]
pub struct RefreshFilter {
    pub status: RefreshTransferStatus,
    pub incoming: bool,
}

/// What an invoice is to be created with.
#[derive(PartialEq, Eq, Debug)]
pub struct InvoiceRequest {
    pub asset_id: Option<String>,
    pub amount: Option<u64>,
    pub duration_seconds: Option<u32>,
    pub transport_endpoints: Vec<String>,
    pub min_confirmations: u8,
    pub blinded: bool,
}

pub open spec fn asset_pos(s: Seq<RgbAsset>, id: Seq<char>, k: int) -> bool {
    0 <= k < s.len() && s[k].asset_id@ == id
}

pub open spec fn has_asset(s: Seq<RgbAsset>, id: Seq<char>) -> bool {
    exists|k: int| asset_pos(s, id, k)
}

pub open spec fn asset_ids_unique(s: Seq<RgbAsset>) -> bool {
    forall|i: int, j: int|
        0 <= i < j < s.len() ==> (#[trigger] s[i]).asset_id@ != (#[trigger] s[j]).asset_id@
}

/// The cache after taking in one freshly listed asset: a cached entry gets
/// the fresh quantities and keeps its other fields; a new one is appended.
pub open spec fn merge_one(cache: Seq<RgbAsset>, x: RgbAsset) -> Seq<RgbAsset> {
    if has_asset(cache, x.asset_id@) {
        let k = choose|k: int| asset_pos(cache, x.asset_id@, k);
        cache.update(k, RgbAsset { balance: x.balance, ..cache[k] })
    } else {
        cache.push(x)
    }
}

/// The cache after taking in every listed asset, in order.
pub open spec fn merged(cache: Seq<RgbAsset>, listed: Seq<RgbAsset>) -> Seq<RgbAsset>
    decreases listed.len(),
{
    if listed.len() == 0 {
        cache
    } else {
        merge_one(merged(cache, listed.drop_last()), listed.last())
    }
}

/// The refresh restrictions: none for a full refresh; for a light one, the
/// transfers waiting for the counterparty, both ways.
pub fn refresh_filter(light: bool) -> (r: Vec<RefreshFilter>)
    ensures
        !light ==> r@.len() == 0,
        light ==> r@ == seq![
            RefreshFilter { status: RefreshTransferStatus::WaitingCounterparty, incoming: true },
            RefreshFilter { status: RefreshTransferStatus::WaitingCounterparty, incoming: false },
        ],
{
    let mut r: Vec<RefreshFilter> = Vec::new();
    if light {
        r.push(RefreshFilter { status: RefreshTransferStatus::WaitingCounterparty, incoming: true });
        r.push(RefreshFilter { status: RefreshTransferStatus::WaitingCounterparty, incoming: false });
        assert(r@ =~= seq![
            RefreshFilter { status: RefreshTransferStatus::WaitingCounterparty, incoming: true },
            RefreshFilter { status: RefreshTransferStatus::WaitingCounterparty, incoming: false },
        ]);
    }
    r
}

/// Whether an asset update starts with a network resynchronization of all assets.
pub fn needs_full_sync(refresh: bool, first_refresh: bool) -> (r: bool)
    ensures
        r == (refresh && !first_refresh),
{
    refresh && !first_refresh
}

/// Whether an asset's transfer list is to be refreshed: on the caller's
/// request, or when its resynchronization (if one ran) reported activity.
pub fn update_asset(update_transfers: bool, sync_activity: Option<bool>) -> (r: bool)
    ensures
        r == (update_transfers || sync_activity == Some(true)),
{
    match sync_activity {
        Some(active) => active || update_transfers,
        None => update_transfers,
    }
}

/// The smart-contract asset layer: its outputs, the cache of asset
/// snapshots (keyed by asset id) and its endpoints.
pub struct RgbWallet {
    unspents: Vec<RgbUtxo>,
    assets: Vec<RgbAsset>,
    indexer_endpoint: Option<String>,
    default_transport_endpoint: Option<String>,
    online: bool,
}

impl RgbWallet {
    pub closed spec fn unspents(&self) -> Seq<RgbUtxo> {
        self.unspents@
    }

    pub closed spec fn assets(&self) -> Seq<RgbAsset> {
        self.assets@
    }

    pub closed spec fn indexer_endpoint(&self) -> Option<String> {
        self.indexer_endpoint
    }

    pub closed spec fn default_transport_endpoint(&self) -> Option<String> {
        self.default_transport_endpoint
    }

    pub closed spec fn is_online(&self) -> bool {
        self.online
    }

    pub open spec fn wf(&self) -> bool {
        asset_ids_unique(self.assets())
    }

    /// An offline wallet with nothing cached.
    pub fn new(indexer_endpoint: Option<String>, default_transport_endpoint: Option<String>) -> (r:
        Self)
        ensures
            r.wf(),
            r.unspents().len() == 0,
            r.assets().len() == 0,
            r.indexer_endpoint() == indexer_endpoint,
            r.default_transport_endpoint() == default_transport_endpoint,
            !r.is_online(),
    {
        RgbWallet {
            unspents: Vec::new(),
            assets: Vec::new(),
            indexer_endpoint,
            default_transport_endpoint,
            online: false,
        }
    }

    /// Goes online through `endpoint`, or else through the configured indexer;
    /// returns the endpoint to connect to, which becomes the configured one.
    pub fn go_online(&mut self, endpoint: Option<String>) -> (r: Result<String, WalletError>)
        ensures
            final(self).unspents() == old(self).unspents(),
            final(self).assets() == old(self).assets(),
            final(self).default_transport_endpoint() == old(self).default_transport_endpoint(),
            endpoint is None && old(self).indexer_endpoint() is None ==> r == Err::<
                String,
                WalletError,
            >(WalletError::NotFound) && *final(self) == *old(self),
            endpoint is Some ==> r == Ok::<String, WalletError>(endpoint.unwrap()),
            endpoint is None && old(self).indexer_endpoint() is Some ==> r == Ok::<
                String,
                WalletError,
            >(old(self).indexer_endpoint().unwrap()),
            r is Ok ==> final(self).is_online() && final(self).indexer_endpoint() == Some(
                r.unwrap(),
            ),
    {
        let chosen = match endpoint {
            Some(e) => e,
            None => match &self.indexer_endpoint {
                Some(e) => e.clone(),
                None => {
                    return Err(WalletError::NotFound);
                },
            },
        };
        self.online = true;
        self.indexer_endpoint = Some(chosen.clone());
        Ok(chosen)
    }

    /// Goes online through the configured indexer unless online already; returns
    /// the endpoint to connect to, if a connection is to be made.
    pub fn ensure_online(&mut self) -> (r: Result<Option<String>, WalletError>)
        ensures
            old(self).is_online() ==> r == Ok::<Option<String>, WalletError>(None) && *final(self)
                == *old(self),
            !old(self).is_online() && old(self).indexer_endpoint() is None ==> r == Err::<
                Option<String>,
                WalletError,
            >(WalletError::NotFound),
            !old(self).is_online() && old(self).indexer_endpoint() is Some ==> r == Ok::<
                Option<String>,
                WalletError,
            >(old(self).indexer_endpoint()) && final(self).is_online(),
            final(self).assets() == old(self).assets(),
            final(self).unspents() == old(self).unspents(),
    {
        if self.online {
            return Ok(None);
        }
        match self.go_online(None) {
            Ok(e) => Ok(Some(e)),
            Err(e) => Err(e),
        }
    }

    /// Replaces the outputs with a fresh listing.
    pub fn set_utxos(&mut self, unspents: Vec<RgbUtxo>)
        ensures
            final(self).unspents() == unspents@,
            final(self).assets() == old(self).assets(),
            old(self).wf() ==> final(self).wf(),
    {
        self.unspents = unspents;
    }

    /// The outputs last listed.
    pub fn get_utxos(&self) -> (r: Vec<RgbUtxo>)
        ensures
            r@ == self.unspents(),
    {
        let mut r: Vec<RgbUtxo> = Vec::new();
        let mut k: usize = 0;
        while k < self.unspents.len()
            invariant
                k <= self.unspents.len(),
                r@ == self.unspents@.take(k as int),
            decreases self.unspents.len() - k,
        {
            r.push(self.unspents[k].clone());
            proof {
                assert(self.unspents@.take(k + 1) =~= self.unspents@.take(k as int).push(self.unspents@[k as int]));
            }
            k += 1;
        }
        proof {
            assert(self.unspents@.take(k as int) =~= self.unspents@);
        }
        r
    }

    /// The cached assets.
    pub fn get_rgb20_assets(&self) -> (r: Vec<RgbAsset>)
        ensures
            r@ == self.assets(),
    {
        let mut r: Vec<RgbAsset> = Vec::new();
        let mut k: usize = 0;
        while k < self.assets.len()
            invariant
                k <= self.assets.len(),
                r@ == self.assets@.take(k as int),
            decreases self.assets.len() - k,
        {
            r.push(self.assets[k].clone());
            proof {
                assert(self.assets@.take(k + 1) =~= self.assets@.take(k as int).push(self.assets@[k as int]));
            }
            k += 1;
        }
        proof {
            assert(self.assets@.take(k as int) =~= self.assets@);
        }
        r
    }

    fn find_asset(&self, asset_id: &String) -> (r: Option<usize>)
        ensures
            match r {
                Some(k) => asset_pos(self.assets@, asset_id@, k as int),
                None => !has_asset(self.assets@, asset_id@),
            },
    {
        let mut k: usize = 0;
        while k < self.assets.len()
            invariant
                k <= self.assets.len(),
                forall|j: int| 0 <= j < k ==> (#[trigger] self.assets@[j]).asset_id@ != asset_id@,
            decreases self.assets.len() - k,
        {
            if self.assets[k].asset_id == *asset_id {
                return Some(k);
            }
            k += 1;
        }
        None
    }

    /// Takes in the assets just listed by the asset engine. A cached asset gets
    /// the fresh spendable, settled and future quantities (its other fields are
    /// kept); an asset seen for the first time is cached as listed. Returns, per
    /// listed asset, whether its transfer list is to be refreshed: always for a
    /// first-seen asset, otherwise when `update_transfers` asks for it.
    pub fn merge_assets(&mut self, listed: &Vec<RgbAsset>, update_transfers: bool) -> (r: Vec<bool>)
        requires
            old(self).wf(),
        ensures
            final(self).wf(),
            final(self).assets() == merged(old(self).assets(), listed@),
            final(self).unspents() == old(self).unspents(),
            r@.len() == listed@.len(),
            forall|i: int|
                0 <= i < listed@.len() ==> #[trigger] r@[i] == (update_transfers || !has_asset(
                    merged(old(self).assets(), listed@.take(i)),
                    listed@[i].asset_id@,
                )),
    {
        let ghost start = self.assets@;
        let mut flags: Vec<bool> = Vec::new();
        let mut i: usize = 0;
        while i < listed.len()
            invariant
                i <= listed.len(),
                start == old(self).assets(),
                self.unspents@ == old(self).unspents(),
                asset_ids_unique(self.assets@),
                self.assets@ == merged(start, listed@.take(i as int)),
                flags@.len() == i,
                forall|j: int|
                    0 <= j < i ==> #[trigger] flags@[j] == (update_transfers || !has_asset(
                        merged(start, listed@.take(j)),
                        listed@[j].asset_id@,
                    )),
            decreases listed.len() - i,
        {
            let x = &listed[i];
            let ghost cache = self.assets@;
            proof {
                assert(listed@.take(i + 1).drop_last() =~= listed@.take(i as int));
                assert(listed@.take(i + 1).last() == listed@[i as int]);
            }
            match self.find_asset(&x.asset_id) {
                Some(k) => {
                    let mut e = self.assets[k].clone();
                    e.balance = RgbBalance {
                        spendable: x.balance.spendable,
                        settled: x.balance.settled,
                        future: x.balance.future,
                    };
                    self.assets.set(k, e);
                    flags.push(update_transfers);
                    proof {
                        let c = choose|c: int| asset_pos(cache, x.asset_id@, c);
                        if c != k {
                            if c < k {
                                assert(cache[c].asset_id@ != cache[k as int].asset_id@);
                            } else {
                                assert(cache[k as int].asset_id@ != cache[c].asset_id@);
                            }
                        }
                        assert(self.assets@ =~= merge_one(cache, listed@[i as int]));
                    }
                },
                None => {
                    self.assets.push(x.clone());
                    flags.push(true);
                    proof {
                        assert(self.assets@ =~= merge_one(cache, listed@[i as int]));
                        assert forall|a: int, b: int| 0 <= a < b < self.assets@.len() implies (
                        #[trigger] self.assets@[a]).asset_id@ != (#[trigger] self.assets@[b]).asset_id@ by {
                            if b == cache.len() {
                                assert(!asset_pos(cache, x.asset_id@, a));
                            } else {
                                assert(self.assets@[a] == cache[a] && self.assets@[b] == cache[b]);
                            }
                        }
                    }
                },
            }
            i += 1;
        }
        proof {
            assert(listed@.take(i as int) =~= listed@);
        }
        flags
    }

    /// What an invoice is to be created with: the given transport endpoint,
    /// else the default one, else it fails; at least one confirmation unless
    /// another number is given.
    pub fn create_invoice(
        &self,
        asset_id: Option<String>,
        amount: Option<u64>,
        duration_seconds: Option<u32>,
        min_confirmations: Option<u8>,
        transport_url: Option<String>,
        blinded: bool,
    ) -> (r: Result<InvoiceRequest, WalletError>)
        ensures
            transport_url is None && self.default_transport_endpoint() is None ==> r == Err::<
                InvoiceRequest,
                WalletError,
            >(WalletError::NotFound),
            transport_url is Some || self.default_transport_endpoint() is Some ==> r is Ok && {
                let q = r.unwrap();
                &&& q.transport_endpoints@ == seq![
                    if transport_url is Some {
                        transport_url.unwrap()
                    } else {
                        self.default_transport_endpoint().unwrap()
                    },
                ]
                &&& q.asset_id == asset_id
                &&& q.amount == amount
                &&& q.duration_seconds == duration_seconds
                &&& q.min_confirmations == if min_confirmations is Some {
                    min_confirmations.unwrap()
                } else {
                    1u8
                }
                &&& q.blinded == blinded
            },
    {
        let mut transport_endpoints: Vec<String> = Vec::new();
        match transport_url {
            Some(url) => transport_endpoints.push(url),
            None => match &self.default_transport_endpoint {
                Some(url) => transport_endpoints.push(url.clone()),
                None => {
                    return Err(WalletError::NotFound);
                },
            },
        }
        let min_confirmations = match min_confirmations {
            Some(n) => n,
            None => 1,
        };
        Ok(
            InvoiceRequest {
                asset_id,
                amount,
                duration_seconds,
                transport_endpoints,
                min_confirmations,
                blinded,
            },
        )
    }
}

} // verus!
