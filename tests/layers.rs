use walletka_core::amount::{Amount, Currency};
use walletka_core::asset::WalletkaAsset;
use walletka_core::builder::{DatabaseStore, Network, WalletkaBuilder};
use walletka_core::cashu::{CashuProof, PendingCashuToken, PendingCashuTokenSource};
use walletka_core::cashu_repository::CashuRepository;
use walletka_core::cashu_wallet::CashuWallet;
use walletka_core::contacts::{ContactAddress, ContactAddressType, NostrMetadata, WalletkaContact};
use walletka_core::enums::{WalletkaAssetLocation, WalletkaAssetState, WalletkaLayer};
use walletka_core::errors::{WalletError, WalletkaError};
use walletka_core::rgb::{
    needs_full_sync, refresh_filter, update_asset, RefreshFilter, RefreshTransferStatus, RgbAsset,
    RgbBalance, RgbUtxo, RgbWallet,
};
use walletka_core::txo::Txo;
use walletka_core::walletka::Walletka;

fn text(s: &str) -> String {
    s.to_string()
}

fn txo(txid: &str, vout: u32, amount: u64, spent: bool) -> Txo {
    Txo { id: None, tx_id: text(txid), vout, amount_sats: amount, spent }
}

fn rgb_asset(id: &str, settled: u64, name: &str) -> RgbAsset {
    RgbAsset {
        asset_id: text(id),
        ticker: text("TKN"),
        name: text(name),
        precision: 2,
        balance: RgbBalance { settled, future: settled + 1, spendable: settled },
    }
}

fn full_wallet() -> Walletka {
    let mut repo = CashuRepository::new();
    repo.store_proof(CashuProof::new(Some(text("K")), 21, text("sec"), text("c"))).unwrap();
    repo.add_pending_token(PendingCashuToken {
        id: None,
        claimed: false,
        datetime: 0,
        token: text("tok"),
        source: PendingCashuTokenSource::Sent,
        amount_sat: 4,
    })
    .unwrap();
    let cashu = CashuWallet::new(repo);
    let mut rgb = RgbWallet::new(None, None);
    rgb.set_utxos(vec![
        RgbUtxo { txid: text("cc"), vout: 0, btc_amount: 1000, colorable: true },
        RgbUtxo { txid: text("dd"), vout: 1, btc_amount: 2000, colorable: false },
    ]);
    rgb.merge_assets(&vec![rgb_asset("rgb:1", 500, "Token")], false);
    Walletka::new(vec![txo("ab", 12, 700, false), txo("ef", 3, 50, true)], cashu, rgb)
}

#[test]
fn utxo_location_is_txid_and_vout() {
    let a = WalletkaAsset::from_txo(&txo("abcd", 12, 700, false));
    assert_eq!(a.asset_location, WalletkaAssetLocation::Utxo { loc: text("abcd:12") });
    assert_eq!(a.asset_state, WalletkaAssetState::Settled);
    assert_eq!(a.layer, WalletkaLayer::Blockchain);
    assert_eq!(a.amount, Amount::new(700, Currency::bitcoin()));
    let s = WalletkaAsset::from_txo(&txo("abcd", 0, 1, true));
    assert_eq!(s.asset_state, WalletkaAssetState::Spent);
    assert_eq!(s.asset_location, WalletkaAssetLocation::Utxo { loc: text("abcd:0") });
}

#[test]
fn rgb_asset_has_its_own_currency() {
    let a = WalletkaAsset::from_rgb_asset(&rgb_asset("rgb:xyz", 42, "Token"));
    assert_eq!(a.layer, WalletkaLayer::Rgb);
    assert_eq!(a.asset_state, WalletkaAssetState::Unknown);
    assert_eq!(a.asset_location, WalletkaAssetLocation::Utxo { loc: text("rgb:xyz") });
    assert_eq!(a.amount, Amount::new(42, Currency::new(text("TKN"), text("Token"), text("TKN"), 2)));
}

#[test]
fn assets_come_in_layer_order() {
    let w = full_wallet();
    let assets = w.get_assets();
    let states: Vec<WalletkaAssetState> = assets.iter().map(|a| a.asset_state).collect();
    assert_eq!(
        states,
        vec![
            WalletkaAssetState::Settled,
            WalletkaAssetState::Spent,
            WalletkaAssetState::Settled,
            WalletkaAssetState::Waiting,
            WalletkaAssetState::Unspendable,
            WalletkaAssetState::Unknown,
        ]
    );
    assert_eq!(assets[4].asset_location, WalletkaAssetLocation::Utxo { loc: text("cc:0") });
    assert_eq!(assets[2].layer, WalletkaLayer::Cashu);
    assert_eq!(assets[2].amount.value, 21);
}

#[test]
fn wallet_balance_over_all_layers() {
    let w = full_wallet();
    let b = w.get_balance(None).unwrap();
    assert_eq!(b.confirmed, vec![Amount::new(721, Currency::bitcoin())]);
    assert_eq!(b.unconfirmed.len(), 2);
    assert_eq!(b.unconfirmed[0], Amount::new(54, Currency::bitcoin()));
    assert_eq!(b.unconfirmed[1].value, 500);
    assert_eq!(b.locked, vec![Amount::new(1000, Currency::bitcoin())]);
    assert_eq!(w.get_balance(None), w.get_balance(None));
    let only_btc = w.get_balance(Some(text("Btc"))).unwrap();
    assert_eq!(only_btc.unconfirmed, vec![Amount::new(54, Currency::bitcoin())]);
}

#[test]
fn claimed_value_shows_as_settled_ecash() {
    let mut cashu = CashuWallet::new(CashuRepository::new());
    cashu
        .claim_token(text("m"), Ok(vec![CashuProof::new(Some(text("K")), 64, text("z"), text("c"))]))
        .unwrap();
    let w = Walletka::new(vec![], cashu, RgbWallet::new(None, None));
    let b = w.get_balance(None).unwrap();
    assert_eq!(b.confirmed, vec![Amount::new(64, Currency::bitcoin())]);
    let assets = w.get_assets();
    assert_eq!(assets.len(), 1);
    assert_eq!(assets[0].layer, WalletkaLayer::Cashu);
}

#[test]
fn balance_overflow_is_reported() {
    let w = Walletka::new(
        vec![txo("a", 0, u64::MAX, false), txo("b", 0, 1, false)],
        CashuWallet::new(CashuRepository::new()),
        RgbWallet::new(None, None),
    );
    assert_eq!(w.get_balance(None), Err(WalletError::AmountOverflow));
}

#[test]
fn merge_refreshes_quantities_and_flags_new_assets() {
    let mut rgb = RgbWallet::new(None, None);
    let flags = rgb.merge_assets(&vec![rgb_asset("a", 1, "First")], false);
    assert_eq!(flags, vec![true]);
    let flags = rgb.merge_assets(&vec![rgb_asset("a", 9, "Renamed"), rgb_asset("b", 2, "B")], false);
    assert_eq!(flags, vec![false, true]);
    let cached = rgb.get_rgb20_assets();
    assert_eq!(cached.len(), 2);
    assert_eq!(cached[0].name, "First");
    assert_eq!(cached[0].balance, RgbBalance { settled: 9, future: 10, spendable: 9 });
    let flags = rgb.merge_assets(&vec![rgb_asset("b", 2, "B")], true);
    assert_eq!(flags, vec![true]);
}

#[test]
fn sync_decisions() {
    assert!(needs_full_sync(true, false));
    assert!(!needs_full_sync(true, true));
    assert!(!needs_full_sync(false, false));
    assert!(update_asset(true, None));
    assert!(update_asset(false, Some(true)));
    assert!(!update_asset(false, Some(false)));
    assert!(refresh_filter(false).is_empty());
    assert_eq!(
        refresh_filter(true),
        vec![
            RefreshFilter { status: RefreshTransferStatus::WaitingCounterparty, incoming: true },
            RefreshFilter { status: RefreshTransferStatus::WaitingCounterparty, incoming: false },
        ]
    );
}

#[test]
fn going_online_needs_an_endpoint() {
    let mut rgb = RgbWallet::new(None, None);
    assert_eq!(rgb.go_online(None), Err(WalletError::NotFound));
    assert_eq!(rgb.ensure_online(), Err(WalletError::NotFound));
    assert_eq!(rgb.go_online(Some(text("tcp://x"))), Ok(text("tcp://x")));
    assert_eq!(rgb.ensure_online(), Ok(None));
    let mut other = RgbWallet::new(Some(text("tcp://idx")), None);
    assert_eq!(other.ensure_online(), Ok(Some(text("tcp://idx"))));
}

#[test]
fn invoice_uses_given_or_default_transport() {
    let rgb = RgbWallet::new(None, Some(text("rpc://default")));
    let q = rgb.create_invoice(Some(text("a")), Some(5), None, None, None, true).unwrap();
    assert_eq!(q.transport_endpoints, vec![text("rpc://default")]);
    assert_eq!(q.min_confirmations, 1);
    assert!(q.blinded);
    let q = rgb.create_invoice(None, None, Some(60), Some(3), Some(text("rpc://mine")), false).unwrap();
    assert_eq!(q.transport_endpoints, vec![text("rpc://mine")]);
    assert_eq!(q.min_confirmations, 3);
    let bare = RgbWallet::new(None, None);
    assert_eq!(
        bare.create_invoice(None, None, None, None, None, false).err(),
        Some(WalletError::NotFound)
    );
}

#[test]
fn nostr_metadata_updates_contact() {
    let mut c = WalletkaContact::from_nostr_contact(text("npub1x"), None);
    assert_eq!(c.display_name, "npub1x");
    assert_eq!(
        c.addresses,
        vec![ContactAddress { address_type: ContactAddressType::Npub, value: text("npub1x") }]
    );
    c.apply_nostr_metadata(NostrMetadata {
        name: Some(text("alice")),
        display_name: Some(text("Alice")),
        nip05: Some(text("alice@test.com")),
    });
    assert_eq!(c.display_name, "Alice");
    assert_eq!(c.addresses[1].address_type, ContactAddressType::Nip05);
    c.apply_nostr_metadata(NostrMetadata { name: Some(text("al")), display_name: None, nip05: None });
    assert_eq!(c.display_name, "al");
    assert_eq!(c.addresses.len(), 2);
    let aliased = WalletkaContact::from_nostr_contact(text("npub1y"), Some(text("Bob")));
    assert_eq!(aliased.display_name, "Bob");
}

#[test]
fn builder_defaults_and_setters() {
    let b = WalletkaBuilder::default();
    assert_eq!(b.wallet_id, Some(text("regtest")));
    assert_eq!(b.database_store, DatabaseStore::Memory);
    assert_eq!(b.data_path, ".data");
    let mut n = WalletkaBuilder::new(
        None,
        DatabaseStore::Memory,
        Network::Testnet,
        text("words"),
        None,
        text("/tmp"),
        vec![],
        None,
        None,
        None,
    );
    assert_eq!(n.wallet_id, Some(text("testnet")));
    n.set_local_db_store(text("/data"));
    assert_eq!(n.get_db_store(), DatabaseStore::Local(text("/data")));
    n.add_nostr_relay(text("wss://r"));
    n.set_wallet_id(text("w"));
    assert_eq!(n.nostr_relay_urls, vec![text("wss://r")]);
    assert_eq!(n.wallet_id, Some(text("w")));
    assert_eq!(Network::Bitcoin.name(), "bitcoin");
}

#[test]
fn error_messages() {
    let e = WalletkaError::Bdk { details: text("boom") };
    assert_eq!(e.message(), "Bdk error: boom");
    let e = WalletkaError::InvalidAddress { details: text("x") };
    assert_eq!(e.message(), "Address error: x");
}
