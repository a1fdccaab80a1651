use vstd::prelude::*;

use crate::amount::{same_currency, Amount, Currency};
use crate::asset::WalletkaAsset;
use crate::enums::WalletkaAssetState;

verus! {

/// Confirmed, unconfirmed and locked totals, one entry per currency whose
/// total in that bucket is not zero.
#[derive(PartialEq, Eq, Debug, Default)]
pub struct WalletkaBalance {
    pub confirmed: Vec<Amount>,
    pub unconfirmed: Vec<Amount>,
    pub locked: Vec<Amount>,
}

/// The three buckets of a balance.
#[derive(Clone, Copy, PartialEq, Eq, Structural, Debug)]
pub enum Bucket {
    Confirmed,
    Unconfirmed,
    Locked,
}

/// Settled value is confirmed, unspendable value is locked, and every other
/// state (unknown, waiting, spent) counts as unconfirmed.
pub open spec fn bucket_of(state: WalletkaAssetState) -> Bucket {
    match state {
        WalletkaAssetState::Settled => Bucket::Confirmed,
        WalletkaAssetState::Unspendable => Bucket::Locked,
        _ => Bucket::Unconfirmed,
    }
}

/// The sum of all asset values.
pub open spec fn value_total(assets: Seq<WalletkaAsset>) -> nat
    decreases assets.len(),
{
    if assets.len() == 0 {
        0
    } else {
        value_total(assets.drop_last()) + assets.last().amount.value as nat
    }
}

/// The assets whose currency symbol is exactly `symbol`, in order.
pub open spec fn with_symbol(assets: Seq<WalletkaAsset>, symbol: Seq<char>) -> Seq<WalletkaAsset>
    decreases assets.len(),
{
    if assets.len() == 0 {
        seq![]
    } else {
        let rest = with_symbol(assets.drop_last(), symbol);
        if assets.last().amount.currency.symbol@ == symbol {
            rest.push(assets.last())
        } else {
            rest
        }
    }
}

/// The assets that a balance query with the given symbol filter looks at.
pub open spec fn filtered(assets: Seq<WalletkaAsset>, filter: Option<String>) -> Seq<WalletkaAsset> {
    match filter {
        Some(symbol) => with_symbol(assets, symbol@),
        None => assets,
    }
}

/// One currency per group, in order of first appearance: the currency of the
/// first asset of that group.
pub open spec fn group_reps(assets: Seq<WalletkaAsset>) -> Seq<Currency>
    decreases assets.len(),
{
    if assets.len() == 0 {
        seq![]
    } else {
        let reps = group_reps(assets.drop_last());
        let c = assets.last().amount.currency;
        if exists|j: int| 0 <= j < reps.len() && same_currency(reps[j], c) {
            reps
        } else {
            reps.push(c)
        }
    }
}

/// The sum of the values of the assets of currency group `c` in bucket `b`.
pub open spec fn bucket_total(assets: Seq<WalletkaAsset>, c: Currency, b: Bucket) -> nat
    decreases assets.len(),
{
    if assets.len() == 0 {
        0
    } else {
        let a = assets.last();
        bucket_total(assets.drop_last(), c, b) + if same_currency(a.amount.currency, c)
            && bucket_of(a.asset_state) == b {
            a.amount.value as nat
        } else {
            0
        }
    }
}

/// For each group currency in `reps`, in order, its non-zero total in bucket `b`.
pub open spec fn bucket_amounts(assets: Seq<WalletkaAsset>, reps: Seq<Currency>, b: Bucket) -> Seq<Amount>
    decreases reps.len(),
{
    if reps.len() == 0 {
        seq![]
    } else {
        let rest = bucket_amounts(assets, reps.drop_last(), b);
        let t = bucket_total(assets, reps.last(), b);
        if t > 0 {
            rest.push(Amount { value: t as u64, currency: reps.last() })
        } else {
            rest
        }
    }
}

/// `r` is the balance of `assets`: each bucket lists the non-zero totals of
/// the currency groups in order of first appearance.
pub open spec fn is_balance_of(r: WalletkaBalance, assets: Seq<WalletkaAsset>) -> bool {
    let reps = group_reps(assets);
    &&& r.confirmed@ == bucket_amounts(assets, reps, Bucket::Confirmed)
    &&& r.unconfirmed@ == bucket_amounts(assets, reps, Bucket::Unconfirmed)
    &&& r.locked@ == bucket_amounts(assets, reps, Bucket::Locked)
}

proof fn lemma_bucket_total_bounded(assets: Seq<WalletkaAsset>, c: Currency, b: Bucket)
    ensures
        bucket_total(assets, c, b) <= value_total(assets),
    decreases assets.len(),
{
    if assets.len() > 0 {
        lemma_bucket_total_bounded(assets.drop_last(), c, b);
    }
}

pub proof fn lemma_value_total_prefix(assets: Seq<WalletkaAsset>, i: int)
    requires
        0 <= i <= assets.len(),
    ensures
        value_total(assets.take(i)) <= value_total(assets),
    decreases assets.len(),
{
    if i == assets.len() {
        assert(assets.take(i) =~= assets);
    } else {
        lemma_value_total_prefix(assets.drop_last(), i);
        assert(assets.drop_last().take(i) =~= assets.take(i));
    }
}

proof fn lemma_with_symbol_total(assets: Seq<WalletkaAsset>, symbol: Seq<char>)
    ensures
        value_total(with_symbol(assets, symbol)) <= value_total(assets),
    decreases assets.len(),
{
    if assets.len() > 0 {
        lemma_with_symbol_total(assets.drop_last(), symbol);
        let rest = with_symbol(assets.drop_last(), symbol);
        assert(rest.push(assets.last()).drop_last() =~= rest);
    }
}

proof fn lemma_group_reps_distinct(assets: Seq<WalletkaAsset>)
    ensures
        forall|j: int, k: int|
            0 <= j < k < group_reps(assets).len() ==> !same_currency(
                #[trigger] group_reps(assets)[j],
                #[trigger] group_reps(assets)[k],
            ),
    decreases assets.len(),
{
    if assets.len() > 0 {
        let pre = assets.drop_last();
        lemma_group_reps_distinct(pre);
        let reps = group_reps(pre);
        let c = assets.last().amount.currency;
        if !exists|j: int| 0 <= j < reps.len() && same_currency(reps[j], c) {
            assert forall|j: int, k: int|
                0 <= j < k < group_reps(assets).len() implies !same_currency(
                #[trigger] group_reps(assets)[j],
                #[trigger] group_reps(assets)[k],
            ) by {
                if k == reps.len() {
                    assert(!same_currency(reps[j], c));
                } else {
                    assert(!same_currency(reps[j], reps[k]));
                }
            }
        }
    }
}

/// A currency that matches no group representative has nothing in any bucket.
proof fn lemma_unmatched_total_zero(assets: Seq<WalletkaAsset>, c: Currency, b: Bucket)
    requires
        forall|j: int|
            0 <= j < group_reps(assets).len() ==> !same_currency(#[trigger] group_reps(assets)[j], c),
    ensures
        bucket_total(assets, c, b) == 0,
    decreases assets.len(),
{
    if assets.len() > 0 {
        let pre = assets.drop_last();
        let reps = group_reps(pre);
        let a = assets.last();
        assert forall|j: int| 0 <= j < reps.len() implies !same_currency(#[trigger] reps[j], c) by {
            assert(group_reps(assets)[j] == reps[j]);
        }
        lemma_unmatched_total_zero(pre, c, b);
        if same_currency(a.amount.currency, c) {
            if exists|j: int| 0 <= j < reps.len() && same_currency(reps[j], a.amount.currency) {
                let j = choose|j: int| 0 <= j < reps.len() && same_currency(reps[j], a.amount.currency);
                assert(group_reps(assets)[j] == reps[j]);
            } else {
                assert(group_reps(assets)[reps.len() as int] == a.amount.currency);
            }
        }
    }
}

/// Running totals of one currency group.
struct GroupTotals {
    currency: Currency,
    confirmed: u64,
    unconfirmed: u64,
    locked: u64,
}

fn find_group(groups: &Vec<GroupTotals>, c: &Currency) -> (r: Option<usize>)
    ensures
        match r {
            Some(j) => j < groups.len() && same_currency(groups@[j as int].currency, *c),
            None => forall|j: int|
                0 <= j < groups.len() ==> !same_currency(#[trigger] groups@[j].currency, *c),
        },
{
    let mut j: usize = 0;
    while j < groups.len()
        invariant
            j <= groups.len(),
            forall|k: int| 0 <= k < j ==> !same_currency(#[trigger] groups@[k].currency, *c),
        decreases groups.len() - j,
    {
        if groups[j].currency.same_as(c) {
            return Some(j);
        }
        j += 1;
    }
    None
}

/// Keeps the assets whose currency symbol is exactly `symbol`.
fn filter_by_symbol(assets: &Vec<WalletkaAsset>, symbol: &String) -> (r: Vec<WalletkaAsset>)
    ensures
        r@ == with_symbol(assets@, symbol@),
{
    let mut r: Vec<WalletkaAsset> = Vec::new();
    let mut i: usize = 0;
    while i < assets.len()
        invariant
            i <= assets.len(),
            r@ == with_symbol(assets@.take(i as int), symbol@),
        decreases assets.len() - i,
    {
        proof {
            assert(assets@.take(i + 1).drop_last() =~= assets@.take(i as int));
        }
        if assets[i].amount.currency.symbol == *symbol {
            r.push(assets[i].clone());
        }
        i += 1;
    }
    proof {
        assert(assets@.take(assets.len() as int) =~= assets@);
    }
    r
}

/// Folds assets into a balance: groups them by currency (all fields equal,
/// wherever the assets stand), then sorts each group's values into buckets.
pub fn balance_of_assets(assets: &Vec<WalletkaAsset>) -> (r: WalletkaBalance)
    requires
        value_total(assets@) <= u64::MAX,
    ensures
        is_balance_of(r, assets@),
{
    let ghost s = assets@;
    let mut groups: Vec<GroupTotals> = Vec::new();
    let mut i: usize = 0;
    while i < assets.len()
        invariant
            i <= assets.len(),
            s == assets@,
            value_total(s) <= u64::MAX,
            groups.len() == group_reps(s.take(i as int)).len(),
            forall|j: int|
                0 <= j < groups.len() ==> {
                    &&& (#[trigger] groups@[j]).currency == group_reps(s.take(i as int))[j]
                    &&& groups@[j].confirmed == bucket_total(
                        s.take(i as int),
                        group_reps(s.take(i as int))[j],
                        Bucket::Confirmed,
                    )
                    &&& groups@[j].unconfirmed == bucket_total(
                        s.take(i as int),
                        group_reps(s.take(i as int))[j],
                        Bucket::Unconfirmed,
                    )
                    &&& groups@[j].locked == bucket_total(
                        s.take(i as int),
                        group_reps(s.take(i as int))[j],
                        Bucket::Locked,
                    )
                },
        decreases assets.len() - i,
    {
        let a = &assets[i];
        let ghost pre = s.take(i as int);
        let ghost cur = s.take(i + 1);
        let ghost reps = group_reps(pre);
        proof {
            assert(cur.drop_last() =~= pre);
            assert(cur.last() == *a);
            lemma_value_total_prefix(s, i + 1);
            lemma_group_reps_distinct(pre);
        }
        match find_group(&groups, &a.amount.currency) {
            Some(j) => {
                proof {
                    assert(group_reps(cur) == reps);
                    lemma_bucket_total_bounded(cur, reps[j as int], Bucket::Confirmed);
                    lemma_bucket_total_bounded(cur, reps[j as int], Bucket::Unconfirmed);
                    lemma_bucket_total_bounded(cur, reps[j as int], Bucket::Locked);
                }
                let v = a.amount.value;
                match a.asset_state {
                    WalletkaAssetState::Settled => {
                        let t = groups[j].confirmed + v;
                        groups[j].confirmed = t;
                    },
                    WalletkaAssetState::Unspendable => {
                        let t = groups[j].locked + v;
                        groups[j].locked = t;
                    },
                    _ => {
                        let t = groups[j].unconfirmed + v;
                        groups[j].unconfirmed = t;
                    },
                }
                proof {
                    assert forall|k: int| 0 <= k < groups.len() && k != j implies !same_currency(
                        a.amount.currency,
                        #[trigger] reps[k],
                    ) by {
                        if k < j {
                            assert(!same_currency(reps[k], reps[j as int]));
                        } else {
                            assert(!same_currency(reps[j as int], reps[k]));
                        }
                    }
                }
            },
            None => {
                proof {
                    assert forall|k: int| 0 <= k < reps.len() implies !same_currency(
                        #[trigger] reps[k],
                        a.amount.currency,
                    ) by {
                        assert(groups@[k].currency == reps[k]);
                    }
                    assert(group_reps(cur) == reps.push(a.amount.currency));
                    lemma_unmatched_total_zero(pre, a.amount.currency, Bucket::Confirmed);
                    lemma_unmatched_total_zero(pre, a.amount.currency, Bucket::Unconfirmed);
                    lemma_unmatched_total_zero(pre, a.amount.currency, Bucket::Locked);
                }
                let v = a.amount.value;
                let g = match a.asset_state {
                    WalletkaAssetState::Settled => GroupTotals {
                        currency: a.amount.currency.clone(),
                        confirmed: v,
                        unconfirmed: 0,
                        locked: 0,
                    },
                    WalletkaAssetState::Unspendable => GroupTotals {
                        currency: a.amount.currency.clone(),
                        confirmed: 0,
                        unconfirmed: 0,
                        locked: v,
                    },
                    _ => GroupTotals {
                        currency: a.amount.currency.clone(),
                        confirmed: 0,
                        unconfirmed: v,
                        locked: 0,
                    },
                };
                groups.push(g);
            },
        }
        i += 1;
    }
    proof {
        assert(s.take(s.len() as int) =~= s);
    }
    let ghost reps = group_reps(s);
    let mut confirmed: Vec<Amount> = Vec::new();
    let mut unconfirmed: Vec<Amount> = Vec::new();
    let mut locked: Vec<Amount> = Vec::new();
    let mut j: usize = 0;
    while j < groups.len()
        invariant
            j <= groups.len(),
            groups.len() == reps.len(),
            forall|k: int|
                0 <= k < groups.len() ==> {
                    &&& (#[trigger] groups@[k]).currency == reps[k]
                    &&& groups@[k].confirmed == bucket_total(s, reps[k], Bucket::Confirmed)
                    &&& groups@[k].unconfirmed == bucket_total(s, reps[k], Bucket::Unconfirmed)
                    &&& groups@[k].locked == bucket_total(s, reps[k], Bucket::Locked)
                },
            confirmed@ == bucket_amounts(s, reps.take(j as int), Bucket::Confirmed),
            unconfirmed@ == bucket_amounts(s, reps.take(j as int), Bucket::Unconfirmed),
            locked@ == bucket_amounts(s, reps.take(j as int), Bucket::Locked),
        decreases groups.len() - j,
    {
        proof {
            assert(reps.take(j + 1).drop_last() =~= reps.take(j as int));
            assert(reps.take(j + 1).last() == reps[j as int]);
        }
        let g = &groups[j];
        if g.confirmed > 0 {
            confirmed.push(Amount { value: g.confirmed, currency: g.currency.clone() });
        }
        if g.unconfirmed > 0 {
            unconfirmed.push(Amount { value: g.unconfirmed, currency: g.currency.clone() });
        }
        if g.locked > 0 {
            locked.push(Amount { value: g.locked, currency: g.currency.clone() });
        }
        j += 1;
    }
    proof {
        assert(reps.take(reps.len() as int) =~= reps);
    }
    WalletkaBalance { confirmed, unconfirmed, locked }
}

/// The balance of `assets`, restricted to one currency symbol when one is given.
pub fn balance_with_filter(assets: &Vec<WalletkaAsset>, currency_symbol: Option<String>) -> (r:
    WalletkaBalance)
    requires
        value_total(assets@) <= u64::MAX,
    ensures
        is_balance_of(r, filtered(assets@, currency_symbol)),
{
    match currency_symbol {
        Some(symbol) => {
            let kept = filter_by_symbol(assets, &symbol);
            proof {
                lemma_with_symbol_total(assets@, symbol@);
            }
            balance_of_assets(&kept)
        },
        None => balance_of_assets(assets),
    }
}

/// What a currency is as far as grouping sees it: its fields' contents.
pub open spec fn currency_key(c: Currency) -> (Seq<char>, Seq<char>, Seq<char>, u64) {
    (c.symbol@, c.name@, c.base_unit_symbol@, c.decimals)
}

pub open spec fn amount_key(a: Amount) -> (u64, (Seq<char>, Seq<char>, Seq<char>, u64)) {
    (a.value, currency_key(a.currency))
}

pub open spec fn amount_keys(s: Seq<Amount>) -> Seq<(u64, (Seq<char>, Seq<char>, Seq<char>, u64))> {
    s.map_values(|a: Amount| amount_key(a))
}

/// Two asset lists that agree on everything a balance reads.
pub open spec fn same_for_balance(s1: Seq<WalletkaAsset>, s2: Seq<WalletkaAsset>) -> bool {
    &&& s1.len() == s2.len()
    &&& forall|k: int|
        0 <= k < s1.len() ==> (#[trigger] s1[k]).asset_state == s2[k].asset_state && amount_key(
            s1[k].amount,
        ) == amount_key(s2[k].amount)
}

/// Two balances with the same contents, bucket by bucket.
pub open spec fn same_balance(r1: WalletkaBalance, r2: WalletkaBalance) -> bool {
    &&& amount_keys(r1.confirmed@) == amount_keys(r2.confirmed@)
    &&& amount_keys(r1.unconfirmed@) == amount_keys(r2.unconfirmed@)
    &&& amount_keys(r1.locked@) == amount_keys(r2.locked@)
}

proof fn lemma_same_drop_last(s1: Seq<WalletkaAsset>, s2: Seq<WalletkaAsset>)
    requires
        same_for_balance(s1, s2),
        s1.len() > 0,
    ensures
        same_for_balance(s1.drop_last(), s2.drop_last()),
        s1.last().asset_state == s2.last().asset_state,
        amount_key(s1.last().amount) == amount_key(s2.last().amount),
{
    assert(s1[s1.len() - 1] == s1.last());
    assert forall|k: int| 0 <= k < s1.drop_last().len() implies (#[trigger] s1.drop_last()[k]).asset_state
        == s2.drop_last()[k].asset_state && amount_key(s1.drop_last()[k].amount) == amount_key(
        s2.drop_last()[k].amount,
    ) by {
        assert(s1.drop_last()[k] == s1[k] && s2.drop_last()[k] == s2[k]);
    }
}

proof fn lemma_same_reps(s1: Seq<WalletkaAsset>, s2: Seq<WalletkaAsset>)
    requires
        same_for_balance(s1, s2),
    ensures
        group_reps(s1).len() == group_reps(s2).len(),
        forall|j: int|
            0 <= j < group_reps(s1).len() ==> currency_key(#[trigger] group_reps(s1)[j]) == currency_key(
                group_reps(s2)[j],
            ),
    decreases s1.len(),
{
    if s1.len() > 0 {
        lemma_same_drop_last(s1, s2);
        lemma_same_reps(s1.drop_last(), s2.drop_last());
        let r1 = group_reps(s1.drop_last());
        let r2 = group_reps(s2.drop_last());
        let c1 = s1.last().amount.currency;
        let c2 = s2.last().amount.currency;
        if exists|j: int| 0 <= j < r1.len() && same_currency(r1[j], c1) {
            let j = choose|j: int| 0 <= j < r1.len() && same_currency(r1[j], c1);
            assert(currency_key(r1[j]) == currency_key(r2[j]));
            assert(same_currency(r2[j], c2));
        } else if exists|j: int| 0 <= j < r2.len() && same_currency(r2[j], c2) {
            let j = choose|j: int| 0 <= j < r2.len() && same_currency(r2[j], c2);
            assert(currency_key(r1[j]) == currency_key(r2[j]));
            assert(same_currency(r1[j], c1));
        }
    }
}

proof fn lemma_same_bucket_total(s1: Seq<WalletkaAsset>, s2: Seq<WalletkaAsset>, c1: Currency, c2: Currency, b: Bucket)
    requires
        same_for_balance(s1, s2),
        currency_key(c1) == currency_key(c2),
    ensures
        bucket_total(s1, c1, b) == bucket_total(s2, c2, b),
    decreases s1.len(),
{
    if s1.len() > 0 {
        lemma_same_drop_last(s1, s2);
        lemma_same_bucket_total(s1.drop_last(), s2.drop_last(), c1, c2, b);
    }
}

proof fn lemma_same_bucket_amounts(
    s1: Seq<WalletkaAsset>,
    s2: Seq<WalletkaAsset>,
    r1: Seq<Currency>,
    r2: Seq<Currency>,
    b: Bucket,
)
    requires
        same_for_balance(s1, s2),
        r1.len() == r2.len(),
        forall|j: int| 0 <= j < r1.len() ==> currency_key(#[trigger] r1[j]) == currency_key(r2[j]),
    ensures
        amount_keys(bucket_amounts(s1, r1, b)) == amount_keys(bucket_amounts(s2, r2, b)),
    decreases r1.len(),
{
    if r1.len() > 0 {
        assert forall|j: int| 0 <= j < r1.drop_last().len() implies currency_key(
            #[trigger] r1.drop_last()[j],
        ) == currency_key(r2.drop_last()[j]) by {
            assert(r1.drop_last()[j] == r1[j] && r2.drop_last()[j] == r2[j]);
        }
        lemma_same_bucket_amounts(s1, s2, r1.drop_last(), r2.drop_last(), b);
        assert(currency_key(r1.last()) == currency_key(r2.last())) by {
            assert(r1[r1.len() - 1] == r1.last() && r2[r2.len() - 1] == r2.last());
        }
        lemma_same_bucket_total(s1, s2, r1.last(), r2.last(), b);
        let prev1 = bucket_amounts(s1, r1.drop_last(), b);
        let prev2 = bucket_amounts(s2, r2.drop_last(), b);
        let t = bucket_total(s1, r1.last(), b);
        if t > 0 {
            let x1 = Amount { value: t as u64, currency: r1.last() };
            let x2 = Amount { value: t as u64, currency: r2.last() };
            assert(amount_keys(prev1.push(x1)) =~= amount_keys(prev1).push(amount_key(x1)));
            assert(amount_keys(prev2.push(x2)) =~= amount_keys(prev2).push(amount_key(x2)));
        }
    }
}

proof fn lemma_same_with_symbol(s1: Seq<WalletkaAsset>, s2: Seq<WalletkaAsset>, symbol: Seq<char>)
    requires
        same_for_balance(s1, s2),
    ensures
        same_for_balance(with_symbol(s1, symbol), with_symbol(s2, symbol)),
    decreases s1.len(),
{
    if s1.len() > 0 {
        lemma_same_drop_last(s1, s2);
        lemma_same_with_symbol(s1.drop_last(), s2.drop_last(), symbol);
    }
}

pub proof fn lemma_same_value_total(s1: Seq<WalletkaAsset>, s2: Seq<WalletkaAsset>)
    requires
        same_for_balance(s1, s2),
    ensures
        value_total(s1) == value_total(s2),
    decreases s1.len(),
{
    if s1.len() > 0 {
        lemma_same_drop_last(s1, s2);
        lemma_same_value_total(s1.drop_last(), s2.drop_last());
    }
}

/// Asset lists that agree on what a balance reads have balances with the same
/// contents, with or without a symbol filter, and the same total value.
pub proof fn lemma_same_assets_same_balance(
    s1: Seq<WalletkaAsset>,
    s2: Seq<WalletkaAsset>,
    filter: Option<String>,
    r1: WalletkaBalance,
    r2: WalletkaBalance,
)
    requires
        same_for_balance(s1, s2),
        is_balance_of(r1, filtered(s1, filter)),
        is_balance_of(r2, filtered(s2, filter)),
    ensures
        same_balance(r1, r2),
        value_total(s1) == value_total(s2),
{
    lemma_same_value_total(s1, s2);
    let f1 = filtered(s1, filter);
    let f2 = filtered(s2, filter);
    if filter is Some {
        lemma_same_with_symbol(s1, s2, filter.unwrap()@);
    }
    lemma_same_reps(f1, f2);
    lemma_same_bucket_amounts(f1, f2, group_reps(f1), group_reps(f2), Bucket::Confirmed);
    lemma_same_bucket_amounts(f1, f2, group_reps(f1), group_reps(f2), Bucket::Unconfirmed);
    lemma_same_bucket_amounts(f1, f2, group_reps(f1), group_reps(f2), Bucket::Locked);
}

} // verus!
