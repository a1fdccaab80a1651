use walletka_core::amount::{Amount, Currency};
use walletka_core::asset::WalletkaAsset;
use walletka_core::balance::{balance_with_filter, WalletkaBalance};
use walletka_core::enums::{WalletkaAssetLocation, WalletkaAssetState, WalletkaLayer};

fn text(s: &str) -> String {
    s.to_string()
}

fn currency(symbol: &str) -> Currency {
    Currency::new(text(symbol), format!("{} coin", symbol), text("unit"), 2)
}

fn asset(symbol: &str, value: u64, state: WalletkaAssetState) -> WalletkaAsset {
    WalletkaAsset {
        layer: WalletkaLayer::Rgb,
        asset_location: WalletkaAssetLocation::Utxo { loc: format!("{}-{}", symbol, value) },
        asset_state: state,
        amount: Amount::new(value, currency(symbol)),
    }
}

fn fixture() -> Vec<WalletkaAsset> {
    vec![
        asset("A", 100, WalletkaAssetState::Settled),
        asset("A", 50, WalletkaAssetState::Settled),
        asset("B", 30, WalletkaAssetState::Waiting),
    ]
}

#[test]
fn grouping_by_currency_and_state() {
    let b = balance_with_filter(&fixture(), None);
    assert_eq!(b.confirmed, vec![Amount::new(150, currency("A"))]);
    assert_eq!(b.unconfirmed, vec![Amount::new(30, currency("B"))]);
    assert!(b.locked.is_empty());
}

#[test]
fn filter_by_symbol() {
    let b = balance_with_filter(&fixture(), Some(text("A")));
    assert_eq!(b.confirmed, vec![Amount::new(150, currency("A"))]);
    assert!(b.unconfirmed.is_empty());
    assert!(b.locked.is_empty());
}

#[test]
fn filter_with_unknown_symbol_is_empty() {
    let b = balance_with_filter(&fixture(), Some(text("C")));
    assert_eq!(b, WalletkaBalance::default());
}

#[test]
fn balance_twice_is_identical() {
    let assets = fixture();
    let b1 = balance_with_filter(&assets, None);
    let b2 = balance_with_filter(&assets, None);
    assert_eq!(b1, b2);
}

#[test]
fn empty_assets_give_empty_balance() {
    let b = balance_with_filter(&vec![], None);
    assert_eq!(b, WalletkaBalance::default());
}

#[test]
fn spent_counts_as_unconfirmed_and_unspendable_as_locked() {
    let assets = vec![
        asset("A", 7, WalletkaAssetState::Spent),
        asset("A", 3, WalletkaAssetState::Unknown),
        asset("A", 11, WalletkaAssetState::Unspendable),
    ];
    let b = balance_with_filter(&assets, None);
    assert!(b.confirmed.is_empty());
    assert_eq!(b.unconfirmed, vec![Amount::new(10, currency("A"))]);
    assert_eq!(b.locked, vec![Amount::new(11, currency("A"))]);
}

#[test]
fn groups_accumulate_across_interleaving() {
    let assets = vec![
        asset("A", 1, WalletkaAssetState::Settled),
        asset("B", 2, WalletkaAssetState::Settled),
        asset("A", 4, WalletkaAssetState::Settled),
    ];
    let b = balance_with_filter(&assets, None);
    assert_eq!(
        b.confirmed,
        vec![Amount::new(5, currency("A")), Amount::new(2, currency("B"))]
    );
}

#[test]
fn zero_totals_are_omitted() {
    let assets = vec![asset("A", 0, WalletkaAssetState::Settled)];
    let b = balance_with_filter(&assets, None);
    assert_eq!(b, WalletkaBalance::default());
}

#[test]
fn same_symbol_other_name_is_another_group() {
    let mut other = asset("A", 5, WalletkaAssetState::Settled);
    other.amount.currency.name = text("Another A");
    let assets = vec![asset("A", 5, WalletkaAssetState::Settled), other];
    let b = balance_with_filter(&assets, Some(text("A")));
    assert_eq!(b.confirmed.len(), 2);
}

#[test]
fn currency_bitcoin_fields() {
    let c = Currency::bitcoin();
    assert_eq!(c.symbol, "Btc");
    assert_eq!(c.name, "Bitcoin");
    assert_eq!(c.base_unit_symbol, "sat");
    assert_eq!(c.decimals, 8);
}

#[test]
fn amount_constructors_and_base_value() {
    let a = Amount::new(100, Currency::bitcoin());
    assert_eq!(a.base_value(), 800);
    let z = Amount::zero(Currency::bitcoin());
    assert_eq!(z.value, 0);
    assert_eq!(z.base_value(), 0);
}
