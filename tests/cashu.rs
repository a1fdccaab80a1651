use walletka_core::cashu::{
    proofs_total_of, CashuMint, CashuProof, PendingCashuToken, PendingCashuTokenSource,
};
use walletka_core::cashu_repository::CashuRepository;
use walletka_core::cashu_wallet::{CashuWallet, SendOutcome, DEFAULT_TRUST_LEVEL};
use walletka_core::errors::WalletError;

const HELLO_DIGEST: &str = "2cf24dba5fb0a30e26e83b2ac5b9e29e1b161e5c1fa7425e73043362938b9824";

fn text(s: &str) -> String {
    s.to_string()
}

fn make_proof(keyset: &str, amount: u64, secret: &str) -> CashuProof {
    CashuProof::new(Some(text(keyset)), amount, text(secret), format!("c-{}", secret))
}

fn mint(keyset: &str, url: &str) -> CashuMint {
    CashuMint { mint_url: text(url), trust_level: 5, keyset_id: text(keyset) }
}

fn total(proofs: &[CashuProof]) -> u64 {
    proofs.iter().map(|p| p.amount_sat).sum()
}

/// A wallet that knows keyset K at https://mint.test and holds proofs worth 10, 30 and 5.
fn scenario_wallet() -> CashuWallet {
    let mut repo = CashuRepository::new();
    repo.add_mint(mint("K", "https://mint.test")).unwrap();
    repo.store_proof(make_proof("K", 10, "ten")).unwrap();
    repo.store_proof(make_proof("K", 30, "thirty")).unwrap();
    repo.store_proof(make_proof("K", 5, "five")).unwrap();
    CashuWallet::new(repo)
}

#[test]
fn stored_proof_is_keyed_by_secret_digest() {
    let mut repo = CashuRepository::new();
    let stored = repo.store_proof(make_proof("K", 4, "hello")).unwrap();
    assert_eq!(stored.id, Some(text(HELLO_DIGEST)));
    assert_eq!(stored.amount_sat, 4);
    assert_eq!(repo.get_proofs(), vec![stored.clone()]);
    assert_eq!(repo.get_proof_by_id(text(HELLO_DIGEST)), Some(stored));
}

#[test]
fn storing_the_same_secret_twice_fails() {
    let mut repo = CashuRepository::new();
    repo.store_proof(make_proof("K", 4, "s")).unwrap();
    assert_eq!(repo.store_proof(make_proof("K", 9, "s")), Err(WalletError::StorageFailure));
    assert_eq!(repo.get_proofs().len(), 1);
}

#[test]
fn delete_proof_reports_whether_it_existed() {
    let mut repo = CashuRepository::new();
    let stored = repo.store_proof(make_proof("K", 4, "s")).unwrap();
    let id = stored.id.unwrap();
    assert!(repo.delete_proof(id.clone()));
    assert!(!repo.delete_proof(id.clone()));
    assert!(repo.get_proofs().is_empty());
    assert_eq!(repo.get_proof_by_id(id), None);
}

#[test]
fn pending_token_is_keyed_and_can_be_claimed() {
    let mut repo = CashuRepository::new();
    let t = PendingCashuToken {
        id: None,
        claimed: false,
        datetime: 17,
        token: text("hello"),
        source: PendingCashuTokenSource::Received,
        amount_sat: 8,
    };
    let stored = repo.add_pending_token(t.clone()).unwrap();
    assert_eq!(stored.id, Some(text(HELLO_DIGEST)));
    assert_eq!(repo.add_pending_token(t), Err(WalletError::StorageFailure));
    assert_eq!(repo.set_pending_token_claimed(text(HELLO_DIGEST)), Ok(()));
    assert!(repo.get_pending_tokens()[0].claimed);
    assert_eq!(repo.set_pending_token_claimed(text("nope")), Err(WalletError::NotFound));
}

#[test]
fn mint_records_create_update_delete() {
    let mut repo = CashuRepository::new();
    assert_eq!(repo.add_mint(mint("K", "u1")), Ok(mint("K", "u1")));
    assert_eq!(repo.add_mint(mint("K", "u2")), Err(WalletError::StorageFailure));
    assert_eq!(repo.update_mint(mint("K", "u3")), Ok(mint("K", "u3")));
    assert_eq!(repo.get_mint_by_id(text("K")), Some(mint("K", "u3")));
    assert_eq!(repo.update_mint(mint("X", "u")), Err(WalletError::NotFound));
    assert_eq!(repo.delete_mint(text("K")), Ok(()));
    assert_eq!(repo.delete_mint(text("K")), Err(WalletError::NotFound));
    assert!(repo.get_mints().is_empty());
}

#[test]
fn mint_registration_is_idempotent() {
    let mut wallet = CashuWallet::new(CashuRepository::new());
    let first = wallet.add_mint(mint("K", "https://a"));
    let second = wallet.add_mint(mint("K", "https://b"));
    assert_eq!(first, second);
    assert_eq!(second.mint_url, "https://a");
    assert_eq!(wallet.get_mints().len(), 1);
}

#[test]
fn wallet_loads_mints_from_store() {
    let wallet = scenario_wallet();
    assert_eq!(wallet.get_mints(), vec![mint("K", "https://mint.test")]);
}

#[test]
fn selection_is_greedy_ascending() {
    let wallet = scenario_wallet();
    let plan = wallet.create_token_from_keyset(text("K"), 35, Some(text("gift"))).unwrap();
    let amounts: Vec<u64> = plan.selected.iter().map(|p| p.amount_sat).collect();
    assert_eq!(amounts, vec![5, 10, 30]);
    assert_eq!(plan.mint_url, "https://mint.test");
    assert_eq!(plan.memo, Some(text("gift")));
    assert_eq!(plan.amount_sat, 35);
}

#[test]
fn selection_stops_at_first_sufficient_prefix() {
    let wallet = scenario_wallet();
    let plan = wallet.create_token_from_keyset(text("K"), 12, None).unwrap();
    let amounts: Vec<u64> = plan.selected.iter().map(|p| p.amount_sat).collect();
    assert_eq!(amounts, vec![5, 10]);
    let plan = wallet.create_token_from_keyset(text("K"), 5, None).unwrap();
    let amounts: Vec<u64> = plan.selected.iter().map(|p| p.amount_sat).collect();
    assert_eq!(amounts, vec![5]);
}

#[test]
fn equal_amounts_keep_stored_order() {
    let mut repo = CashuRepository::new();
    repo.add_mint(mint("K", "u")).unwrap();
    repo.store_proof(make_proof("K", 4, "first")).unwrap();
    repo.store_proof(make_proof("K", 4, "second")).unwrap();
    let wallet = CashuWallet::new(repo);
    let plan = wallet.create_token_from_keyset(text("K"), 3, None).unwrap();
    assert_eq!(plan.selected.len(), 1);
    assert_eq!(plan.selected[0].secret, "first");
}

#[test]
fn other_keysets_are_not_selected() {
    let mut repo = CashuRepository::new();
    repo.add_mint(mint("K", "u")).unwrap();
    repo.add_mint(mint("L", "v")).unwrap();
    repo.store_proof(make_proof("L", 100, "l1")).unwrap();
    repo.store_proof(make_proof("K", 2, "k1")).unwrap();
    let wallet = CashuWallet::new(repo);
    assert_eq!(
        wallet.create_token_from_keyset(text("K"), 3, None).err(),
        Some(WalletError::InsufficientFunds)
    );
}

#[test]
fn insufficient_funds_leave_store_unchanged() {
    let wallet = scenario_wallet();
    let before = wallet.get_proofs();
    assert_eq!(
        wallet.create_token_from_keyset(text("K"), 46, None).err(),
        Some(WalletError::InsufficientFunds)
    );
    assert_eq!(wallet.get_proofs(), before);
    assert!(wallet.create_token_from_keyset(text("K"), 45, None).is_ok());
}

#[test]
fn unknown_keyset_is_not_found() {
    let wallet = scenario_wallet();
    assert_eq!(
        wallet.create_token_from_keyset(text("Z"), 1, None).err(),
        Some(WalletError::NotFound)
    );
}

#[test]
fn send_scenario_keeps_change_and_records_token() {
    let mut wallet = scenario_wallet();
    let plan = wallet.create_token_from_keyset(text("K"), 35, Some(text("gift"))).unwrap();
    let outcome = SendOutcome {
        send_proofs: vec![make_proof("K", 32, "s1"), make_proof("K", 3, "s2")],
        change_proofs: vec![make_proof("K", 10, "change")],
        token: text("cashuAtoken"),
    };
    let record = wallet.finish_token_send(&plan, Ok(outcome), 1000).unwrap();
    assert_eq!(record.amount_sat, 35);
    assert_eq!(record.source, PendingCashuTokenSource::Sent);
    assert!(!record.claimed);
    assert_eq!(record.datetime, 1000);
    let left = wallet.get_proofs();
    assert_eq!(left.len(), 1);
    assert_eq!(left[0].amount_sat, 10);
    assert_eq!(left[0].secret, "change");
    assert_eq!(wallet.get_pending_tokens(), vec![record]);
}

#[test]
fn send_conserves_value() {
    let mut wallet = scenario_wallet();
    let before = total(&wallet.get_proofs());
    let plan = wallet.create_token_from_keyset(text("K"), 12, None).unwrap();
    let outcome = SendOutcome {
        send_proofs: vec![make_proof("K", 12, "s")],
        change_proofs: vec![make_proof("K", 3, "c")],
        token: text("t1"),
    };
    wallet.finish_token_send(&plan, Ok(outcome), 0).unwrap();
    let after = wallet.get_proofs();
    assert_eq!(total(&after) + 12, before);
    for p in &plan.selected {
        assert!(after.iter().all(|q| q.id != p.id));
    }
    let plan2 = wallet.create_token_from_keyset(text("K"), 30, None).unwrap();
    for p in &plan2.selected {
        assert!(plan.selected.iter().all(|q| q.id != p.id));
    }
}

#[test]
fn failed_exchange_leaves_proofs_intact() {
    let mut wallet = scenario_wallet();
    let before = wallet.get_proofs();
    let plan = wallet.create_token_from_keyset(text("K"), 35, None).unwrap();
    let r = wallet.finish_token_send(&plan, Err(WalletError::NetworkUnavailable), 0);
    assert_eq!(r, Err(WalletError::NetworkUnavailable));
    assert_eq!(wallet.get_proofs(), before);
    assert!(wallet.get_pending_tokens().is_empty());
}

#[test]
fn change_with_taken_identity_fails() {
    let mut wallet = scenario_wallet();
    let plan = wallet.create_token_from_keyset(text("K"), 5, None).unwrap();
    let outcome = SendOutcome {
        send_proofs: vec![],
        change_proofs: vec![make_proof("K", 1, "thirty")],
        token: text("t"),
    };
    let r = wallet.finish_token_send(&plan, Ok(outcome), 0);
    assert_eq!(r, Err(WalletError::StorageFailure));
}

#[test]
fn claim_into_empty_wallet() {
    let mut wallet = CashuWallet::new(CashuRepository::new());
    let received = vec![make_proof("N", 8, "a"), make_proof("N", 2, "b")];
    let amount = wallet.claim_token(text("https://new.mint"), Ok(received)).unwrap();
    assert_eq!(amount, 10);
    assert_eq!(total(&wallet.get_proofs()), 10);
    let mints = wallet.get_mints();
    assert_eq!(mints.len(), 1);
    assert_eq!(mints[0].keyset_id, "N");
    assert_eq!(mints[0].mint_url, "https://new.mint");
    assert_eq!(mints[0].trust_level, DEFAULT_TRUST_LEVEL);
}

#[test]
fn rejected_claim_changes_nothing() {
    let mut wallet = scenario_wallet();
    let r = wallet.claim_token(text("u"), Err(WalletError::ExchangeRejected));
    assert_eq!(r, Err(WalletError::ExchangeRejected));
    assert_eq!(wallet.get_proofs().len(), 3);
}

#[test]
fn store_proofs_stops_at_duplicate() {
    let mut wallet = CashuWallet::new(CashuRepository::new());
    let r = wallet.store_proofs(
        &text("u"),
        vec![make_proof("N", 1, "x"), make_proof("N", 2, "x"), make_proof("N", 3, "y")],
    );
    assert_eq!(r, Err(WalletError::StorageFailure));
    assert_eq!(wallet.get_proofs().len(), 1);
}

#[test]
fn proofs_total_reports_overflow() {
    assert_eq!(proofs_total_of(&vec![make_proof("K", 3, "a"), make_proof("K", 4, "b")]), Some(7));
    assert_eq!(proofs_total_of(&vec![]), Some(0));
    assert_eq!(
        proofs_total_of(&vec![make_proof("K", u64::MAX, "a"), make_proof("K", 1, "b")]),
        None
    );
}
