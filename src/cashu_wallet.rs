use vstd::prelude::*;

use itertools::Itertools;

use crate::cashu::{
    lemma_proofs_total_prefix, proofs_total, CashuMint, CashuProof, PendingCashuToken,
    PendingCashuTokenSource,
};
use crate::cashu_repository::{
    all_proofs_identified, drop_id, is_record_of, is_token_record_of, lemma_drop_id_identified,
    lemma_drop_id_keeps, lemma_drop_id_subset, lemma_drop_id_total, lemma_drop_id_unique, mint_index,
    mints_contain, mints_unique, proof_has_id, proof_identity, proof_ids_unique, proofs_contain_id,
    token_identity, tokens_contain_id, CashuRepository,
};
use crate::errors::WalletError;

verus! {

broadcast use vstd::seq_lib::group_to_multiset_ensures, vstd::multiset::group_multiset_axioms;

/// Trust level given to a mint first seen through one of its proofs.
pub const DEFAULT_TRUST_LEVEL: i32 = 1;

/// Order of (amount, position) pairs: by amount, then by position.
pub open spec fn pair_le(x: (u64, usize), y: (u64, usize)) -> bool {
    x.0 < y.0 || (x.0 == y.0 && x.1 <= y.1)
}

/// Relies on itertools::Itertools::sorted: the same items in ascending order
/// (std's sort on tuples, which compares them lexicographically).
#[verifier::external_body]
fn sorted_pairs(v: Vec<(u64, usize)>) -> (r: Vec<(u64, usize)>)
    ensures
        r@.to_multiset() == v@.to_multiset(),
        forall|a: int, b: int| 0 <= a < b < r@.len() ==> pair_le(#[trigger] r@[a], #[trigger] r@[b]),
{
    v.into_iter().sorted().collect()
}

pub open spec fn pair_sum(s: Seq<(u64, usize)>) -> nat
    decreases s.len(),
{
    if s.len() == 0 {
        0
    } else {
        pair_sum(s.drop_last()) + s.last().0 as nat
    }
}

proof fn lemma_pair_sum_prefix(s: Seq<(u64, usize)>, i: int)
    requires
        0 <= i <= s.len(),
    ensures
        pair_sum(s.take(i)) <= pair_sum(s),
    decreases s.len(),
{
    if i == s.len() {
        assert(s.take(i) =~= s);
    } else {
        lemma_pair_sum_prefix(s.drop_last(), i);
        assert(s.drop_last().take(i) =~= s.take(i));
    }
}

proof fn lemma_pair_sum_remove(s: Seq<(u64, usize)>, t: int)
    requires
        0 <= t < s.len(),
    ensures
        pair_sum(s) == pair_sum(s.remove(t)) + s[t].0 as nat,
    decreases s.len(),
{
    if t < s.len() - 1 {
        lemma_pair_sum_remove(s.drop_last(), t);
        assert(s.remove(t).drop_last() =~= s.drop_last().remove(t));
    } else {
        assert(s.remove(t) =~= s.drop_last());
    }
}

proof fn lemma_pair_sum_permutation(a: Seq<(u64, usize)>, b: Seq<(u64, usize)>)
    requires
        a.to_multiset() =~= b.to_multiset(),
    ensures
        pair_sum(a) == pair_sum(b),
    decreases a.len(),
{
    if a.len() == 0 {
        assert(b.to_multiset().len() == 0);
    } else {
        let x = a.last();
        assert(a.drop_last().push(x) =~= a);
        assert(a.to_multiset().count(x) > 0);
        assert(b.contains(x));
        let t = choose|t: int| 0 <= t < b.len() && b[t] == x;
        assert(a.drop_last().to_multiset() =~= a.to_multiset().remove(x));
        assert(b.remove(t).to_multiset() =~= b.to_multiset().remove(x));
        lemma_pair_sum_permutation(a.drop_last(), b.remove(t));
        lemma_pair_sum_remove(b, t);
    }
}

pub open spec fn in_keyset(p: CashuProof, keyset_id: Seq<char>) -> bool {
    p.keyset_id is Some && p.keyset_id.unwrap()@ == keyset_id
}

/// The proofs bound to `keyset_id`, in stored order.
pub open spec fn keyset_proofs(s: Seq<CashuProof>, keyset_id: Seq<char>) -> Seq<CashuProof>
    decreases s.len(),
{
    if s.len() == 0 {
        seq![]
    } else {
        let rest = keyset_proofs(s.drop_last(), keyset_id);
        if in_keyset(s.last(), keyset_id) {
            rest.push(s.last())
        } else {
            rest
        }
    }
}

/// Ascending order of amounts, ties broken by position.
pub open spec fn precedes(kp: Seq<CashuProof>, i: int, j: int) -> bool {
    kp[i].amount_sat < kp[j].amount_sat || (kp[i].amount_sat == kp[j].amount_sat && i < j)
}

/// `sel` is the shortest prefix of `kp` in ascending order of amount whose sum
/// reaches `amount`; `pos` gives the position in `kp` of each selected proof.
pub open spec fn greedy_selection(
    kp: Seq<CashuProof>,
    amount: nat,
    sel: Seq<CashuProof>,
    pos: Seq<int>,
) -> bool {
    &&& pos.len() == sel.len()
    &&& sel.len() > 0
    &&& forall|k: int| 0 <= k < pos.len() ==> 0 <= #[trigger] pos[k] < kp.len() && sel[k] == kp[pos[k]]
    &&& forall|a: int, b: int| 0 <= a < b < pos.len() ==> precedes(kp, #[trigger] pos[a], #[trigger] pos[b])
    &&& forall|q: int| 0 <= q < kp.len() && !pos.contains(q) ==> precedes(kp, pos.last(), q)
    &&& proofs_total(sel.drop_last()) < amount <= proofs_total(sel)
}

/// New proofs stored after `before`, each under its record identity.
pub open spec fn stored_all(before: Seq<CashuProof>, new: Seq<CashuProof>, after: Seq<CashuProof>) -> bool {
    &&& after.len() == before.len() + new.len()
    &&& after.take(before.len() as int) == before
    &&& forall|k: int| 0 <= k < new.len() ==> is_record_of(#[trigger] after[before.len() + k], new[k])
}

/// No new proof collides with a stored identity or with an earlier new proof.
pub open spec fn fresh_records(before: Seq<CashuProof>, new: Seq<CashuProof>) -> bool {
    forall|k: int|
        0 <= k < new.len() ==> {
            &&& !proofs_contain_id(before, proof_identity(#[trigger] new[k]))
            &&& forall|j: int| 0 <= j < k ==> proof_identity(new[j]) != proof_identity(new[k])
        }
}

/// Mints only get added; each added one has `mint_url` and the default trust level.
pub open spec fn mints_extended(before: Seq<CashuMint>, mint_url: Seq<char>, after: Seq<CashuMint>) -> bool {
    &&& before.len() <= after.len()
    &&& after.take(before.len() as int) == before
    &&& forall|j: int|
        before.len() <= j < after.len() ==> (#[trigger] after[j]).mint_url@ == mint_url
            && after[j].trust_level == DEFAULT_TRUST_LEVEL
}

/// Every proof's keyset has a mint record.
pub open spec fn keysets_registered(mints: Seq<CashuMint>, proofs: Seq<CashuProof>) -> bool {
    forall|k: int|
        0 <= k < proofs.len() ==> mints_contain(mints, (#[trigger] proofs[k]).keyset_id.unwrap()@)
}

pub open spec fn all_keysets_known(proofs: Seq<CashuProof>) -> bool {
    forall|k: int| 0 <= k < proofs.len() ==> (#[trigger] proofs[k]).keyset_id is Some
}

/// The proofs left once each selected proof's identity is deleted, in turn.
pub open spec fn remove_selected(p: Seq<CashuProof>, sel: Seq<CashuProof>) -> Seq<CashuProof>
    decreases sel.len(),
{
    if sel.len() == 0 {
        p
    } else {
        let rest = remove_selected(p, sel.drop_last());
        match sel.last().id {
            Some(id) => drop_id(rest, id@),
            None => rest,
        }
    }
}

/// The pending record of a token sent for `amount_sat`.
pub open spec fn sent_token(amount_sat: u64, token: String, datetime: u64) -> PendingCashuToken {
    PendingCashuToken {
        id: None,
        claimed: false,
        datetime,
        token,
        source: PendingCashuTokenSource::Sent,
        amount_sat,
    }
}


proof fn lemma_keyset_proofs_subset(s: Seq<CashuProof>, keyset_id: Seq<char>, x: CashuProof)
    requires
        keyset_proofs(s, keyset_id).contains(x),
    ensures
        s.contains(x),
    decreases s.len(),
{
    let rest = keyset_proofs(s.drop_last(), keyset_id);
    if rest.contains(x) {
        lemma_keyset_proofs_subset(s.drop_last(), keyset_id, x);
        let j = choose|j: int| 0 <= j < s.drop_last().len() && s.drop_last()[j] == x;
        assert(s[j] == x);
    } else {
        assert(s[s.len() - 1] == x);
    }
}

proof fn lemma_keyset_proofs_unique(s: Seq<CashuProof>, keyset_id: Seq<char>)
    requires
        proof_ids_unique(s),
    ensures
        proof_ids_unique(keyset_proofs(s, keyset_id)),
    decreases s.len(),
{
    if s.len() > 0 {
        let pre = s.drop_last();
        lemma_keyset_proofs_unique(pre, keyset_id);
        let rest = keyset_proofs(pre, keyset_id);
        if in_keyset(s.last(), keyset_id) {
            let r = rest.push(s.last());
            assert forall|i: int, j: int| 0 <= i < j < r.len() implies (#[trigger] r[i]).id.unwrap()@
                != (#[trigger] r[j]).id.unwrap()@ by {
                if j == rest.len() {
                    assert(rest.contains(r[i]));
                    lemma_keyset_proofs_subset(pre, keyset_id, r[i]);
                    let x = choose|x: int| 0 <= x < pre.len() && pre[x] == r[i];
                    assert(s[x] == r[i]);
                    assert(s[s.len() - 1] == s.last());
                } else {
                    assert(r[i] == rest[i] && r[j] == rest[j]);
                }
            }
        }
    }
}

proof fn lemma_remove_selected_keeps(p: Seq<CashuProof>, sel: Seq<CashuProof>, y: CashuProof)
    requires
        p.contains(y),
        y.id is Some,
        forall|k: int| 0 <= k < sel.len() ==> (#[trigger] sel[k]).id is Some && sel[k].id.unwrap()@ != y.id.unwrap()@,
    ensures
        remove_selected(p, sel).contains(y),
    decreases sel.len(),
{
    if sel.len() > 0 {
        assert forall|k: int| 0 <= k < sel.drop_last().len() implies (#[trigger] sel.drop_last()[k]).id is Some
            && sel.drop_last()[k].id.unwrap()@ != y.id.unwrap()@ by {
            assert(sel.drop_last()[k] == sel[k]);
        }
        lemma_remove_selected_keeps(p, sel.drop_last(), y);
        assert(sel[sel.len() - 1] == sel.last());
        lemma_drop_id_keeps(remove_selected(p, sel.drop_last()), sel.last().id.unwrap()@, y);
    }
}

/// Removing distinct stored proofs takes exactly their amounts away and
/// leaves none of their identities.
proof fn lemma_remove_selected(p: Seq<CashuProof>, sel: Seq<CashuProof>)
    requires
        all_proofs_identified(p),
        proof_ids_unique(p),
        forall|k: int| 0 <= k < sel.len() ==> p.contains(#[trigger] sel[k]),
        forall|i: int, j: int|
            0 <= i < j < sel.len() ==> (#[trigger] sel[i]).id.unwrap()@ != (#[trigger] sel[j]).id.unwrap()@,
    ensures
        proofs_total(remove_selected(p, sel)) + proofs_total(sel) == proofs_total(p),
        all_proofs_identified(remove_selected(p, sel)),
        proof_ids_unique(remove_selected(p, sel)),
        forall|k: int|
            0 <= k < sel.len() ==> !proofs_contain_id(
                remove_selected(p, sel),
                (#[trigger] sel[k]).id.unwrap()@,
            ),
    decreases sel.len(),
{
    if sel.len() > 0 {
        let sp = sel.drop_last();
        let x = sel.last();
        assert(sel[sel.len() - 1] == x);
        assert forall|k: int| 0 <= k < sp.len() implies p.contains(#[trigger] sp[k]) by {
            assert(sp[k] == sel[k]);
        }
        assert forall|i: int, j: int| 0 <= i < j < sp.len() implies (#[trigger] sp[i]).id.unwrap()@
            != (#[trigger] sp[j]).id.unwrap()@ by {
            assert(sp[i] == sel[i] && sp[j] == sel[j]);
        }
        lemma_remove_selected(p, sp);
        let r = remove_selected(p, sp);
        assert(p.contains(x));
        let xi = choose|xi: int| 0 <= xi < p.len() && p[xi] == x;
        assert(x.id is Some);
        assert forall|k: int| 0 <= k < sp.len() implies (#[trigger] sp[k]).id is Some && sp[k].id.unwrap()@
            != x.id.unwrap()@ by {
            assert(sp[k] == sel[k]);
            assert(p.contains(sel[k]));
            let t = choose|t: int| 0 <= t < p.len() && p[t] == sel[k];
        }
        lemma_remove_selected_keeps(p, sp, x);
        lemma_drop_id_total(r, x);
        lemma_drop_id_unique(r, x.id.unwrap()@);
        lemma_drop_id_identified(r, x.id.unwrap()@);
        let d = drop_id(r, x.id.unwrap()@);
        assert forall|k: int| 0 <= k < sel.len() implies !proofs_contain_id(d, (#[trigger] sel[k]).id.unwrap()@) by {
            if proofs_contain_id(d, sel[k].id.unwrap()@) {
                let t = choose|t: int| 0 <= t < d.len() && proof_has_id(d[t], sel[k].id.unwrap()@);
                assert(d.contains(d[t]));
                lemma_drop_id_subset(r, x.id.unwrap()@, d[t]);
                if k < sp.len() {
                    assert(sp[k] == sel[k]);
                    let u = choose|u: int| 0 <= u < r.len() && r[u] == d[t];
                    assert(proof_has_id(r[u], sp[k].id.unwrap()@));
                }
            }
        }
    }
}

/// Storing proofs after others adds exactly their amounts.
pub proof fn lemma_stored_all_total(before: Seq<CashuProof>, new: Seq<CashuProof>, after: Seq<CashuProof>)
    requires
        stored_all(before, new, after),
    ensures
        proofs_total(after) == proofs_total(before) + proofs_total(new),
    decreases new.len(),
{
    if new.len() == 0 {
        assert(after =~= before) by {
            assert(after.take(before.len() as int) =~= after);
        }
    } else {
        let n = before.len() as int;
        assert(stored_all(before, new.drop_last(), after.drop_last())) by {
            assert(after.drop_last().take(n) =~= after.take(n));
            assert forall|k: int| 0 <= k < new.drop_last().len() implies is_record_of(
                #[trigger] after.drop_last()[n + k],
                new.drop_last()[k],
            ) by {
                assert(is_record_of(after[n + k], new[k]));
            }
        }
        lemma_stored_all_total(before, new.drop_last(), after.drop_last());
        assert(is_record_of(after[n + new.len() - 1], new[new.len() - 1]));
    }
}

/// A completed send conserves value: when the mint split the selected proofs
/// into exactly the amount sent and the change, the proofs stored afterwards
/// plus the amount sent add up to the proofs held before, and no selected
/// proof identity is left among the proofs kept, so none can be selected again.
pub proof fn lemma_send_conserves_value(
    before: CashuWallet,
    plan: SendPlan,
    change: Seq<CashuProof>,
    after: Seq<CashuProof>,
)
    requires
        before.wf(),
        greedy_selection(
            keyset_proofs(before.proofs(), plan.keyset_id@),
            plan.amount_sat as nat,
            plan.selected@,
            plan.order@,
        ),
        proofs_total(change) + plan.amount_sat == proofs_total(plan.selected@),
        stored_all(remove_selected(before.proofs(), plan.selected@), change, after),
    ensures
        proofs_total(after) + plan.amount_sat == proofs_total(before.proofs()),
        forall|k: int|
            0 <= k < plan.selected@.len() ==> !proofs_contain_id(
                remove_selected(before.proofs(), plan.selected@),
                (#[trigger] plan.selected@[k]).id.unwrap()@,
            ),
{
    let p = before.proofs();
    let sel = plan.selected@;
    let kp = keyset_proofs(p, plan.keyset_id@);
    let pos = plan.order@;
    lemma_keyset_proofs_unique(p, plan.keyset_id@);
    assert forall|k: int| 0 <= k < sel.len() implies p.contains(#[trigger] sel[k]) by {
        assert(0 <= pos[k] < kp.len());
        assert(kp.contains(kp[pos[k]]));
        lemma_keyset_proofs_subset(p, plan.keyset_id@, kp[pos[k]]);
    }
    assert forall|i: int, j: int| 0 <= i < j < sel.len() implies (#[trigger] sel[i]).id.unwrap()@
        != (#[trigger] sel[j]).id.unwrap()@ by {
        assert(precedes(kp, pos[i], pos[j]));
        assert(0 <= pos[i] < kp.len() && 0 <= pos[j] < kp.len());
        if pos[i] < pos[j] {
            assert(kp[pos[i]].id.unwrap()@ != kp[pos[j]].id.unwrap()@);
        } else {
            assert(kp[pos[j]].id.unwrap()@ != kp[pos[i]].id.unwrap()@);
        }
    }
    lemma_remove_selected(p, sel);
    lemma_stored_all_total(remove_selected(p, sel), change, after);
}

/// `r` and `after` are what registering `mint` over the records `before` gives:
/// the record already kept for its keyset id, or the new record appended.
pub open spec fn registration(before: Seq<CashuMint>, mint: CashuMint, after: Seq<CashuMint>, r: CashuMint) -> bool {
    &&& mints_contain(before, mint.keyset_id@) ==> after == before && exists|k: int|
        mint_index(before, mint.keyset_id@, k) && r == before[k]
    &&& !mints_contain(before, mint.keyset_id@) ==> r == mint && after == before.push(mint)
}

/// Registering a mint twice under one keyset id gives the same record both
/// times, and the second registration adds nothing.
pub proof fn lemma_mint_registration_idempotent(
    m0: Seq<CashuMint>,
    first: CashuMint,
    m1: Seq<CashuMint>,
    r1: CashuMint,
    second: CashuMint,
    m2: Seq<CashuMint>,
    r2: CashuMint,
)
    requires
        mints_unique(m0),
        registration(m0, first, m1, r1),
        registration(m1, second, m2, r2),
        first.keyset_id@ == second.keyset_id@,
    ensures
        r2 == r1,
        m2 == m1,
        mints_unique(m2),
{
    if mints_contain(m0, first.keyset_id@) {
        let k = choose|k: int| mint_index(m0, first.keyset_id@, k) && r1 == m0[k];
        let j = choose|j: int| mint_index(m1, second.keyset_id@, j) && r2 == m1[j];
        if j != k {
            if j < k {
                assert(m0[j].keyset_id@ != m0[k].keyset_id@);
            } else {
                assert(m0[k].keyset_id@ != m0[j].keyset_id@);
            }
        }
    } else {
        let n = m0.len() as int;
        assert(mint_index(m1, second.keyset_id@, n));
        let j = choose|j: int| mint_index(m1, second.keyset_id@, j) && r2 == m1[j];
        if j != n {
            assert(m0[j] == m1[j]);
            assert(mint_index(m0, first.keyset_id@, j));
        }
        assert forall|a: int, b: int| 0 <= a < b < m2.len() implies (#[trigger] m2[a]).keyset_id@
            != (#[trigger] m2[b]).keyset_id@ by {
            if b == n {
                assert(m2[a] == m0[a]);
                assert(!mint_index(m0, first.keyset_id@, a));
            } else {
                assert(m2[a] == m0[a] && m2[b] == m0[b]);
            }
        }
    }
}

/// The amounts of all planned sends.
pub open spec fn sent_total(plans: Seq<SendPlan>) -> nat
    decreases plans.len(),
{
    if plans.len() == 0 {
        0
    } else {
        sent_total(plans.drop_last()) + plans.last().amount_sat as nat
    }
}

/// One completed send from `before` to the proofs `after`, with a faithful
/// mint split.
pub open spec fn send_step(before: CashuWallet, plan: SendPlan, change: Seq<CashuProof>, after: CashuWallet) -> bool {
    &&& before.wf()
    &&& greedy_selection(
        keyset_proofs(before.proofs(), plan.keyset_id@),
        plan.amount_sat as nat,
        plan.selected@,
        plan.order@,
    )
    &&& proofs_total(change) + plan.amount_sat == proofs_total(plan.selected@)
    &&& stored_all(remove_selected(before.proofs(), plan.selected@), change, after.proofs())
}

/// Over any sequence of completed sends, the proofs stored at the end plus
/// everything sent add up to the proofs held at the start.
pub proof fn lemma_sends_conserve_value(
    states: Seq<CashuWallet>,
    plans: Seq<SendPlan>,
    changes: Seq<Seq<CashuProof>>,
)
    requires
        states.len() == plans.len() + 1,
        changes.len() == plans.len(),
        forall|i: int|
            0 <= i < plans.len() ==> send_step(states[i], #[trigger] plans[i], changes[i], states[i + 1]),
    ensures
        proofs_total(states.last().proofs()) + sent_total(plans) == proofs_total(states[0].proofs()),
    decreases plans.len(),
{
    if plans.len() > 0 {
        let n = plans.len() - 1;
        let s0 = states.drop_last();
        assert forall|i: int|
            0 <= i < plans.drop_last().len() implies send_step(
            s0[i],
            #[trigger] plans.drop_last()[i],
            changes.drop_last()[i],
            s0[i + 1],
        ) by {
            assert(plans.drop_last()[i] == plans[i]);
            assert(s0[i] == states[i] && s0[i + 1] == states[i + 1]);
        }
        lemma_sends_conserve_value(s0, plans.drop_last(), changes.drop_last());
        assert(send_step(states[n], plans[n], changes[n], states[n + 1]));
        lemma_send_conserves_value(states[n], plans[n], changes[n], states[n + 1].proofs());
        assert(plans.last() == plans[n]);
        assert(s0.last() == states[n]);
        assert(states.last() == states[n + 1]);
    }
}

/// What a token send needs from the mint: the proofs chosen, from a known keyset.
pub struct SendPlan {
    pub keyset_id: String,
    pub mint_url: String,
    pub amount_sat: u64,
    /// Note to pack into the token.
    pub memo: Option<String>,
    pub selected: Vec<CashuProof>,
    /// Position of each selected proof among the keyset's proofs.
    pub order: Ghost<Seq<int>>,
}

/// What the mint answered to a send: proofs worth the amount, packed into a
/// serialized token, and the change.
#[derive(Debug)]
pub struct SendOutcome {
    pub send_proofs: Vec<CashuProof>,
    pub change_proofs: Vec<CashuProof>,
    pub token: String,
}

/// The e-cash wallet: its record store and the cache of known mints.
pub struct CashuWallet {
    repository: CashuRepository,
    mints: Vec<CashuMint>,
}

impl CashuWallet {
    pub closed spec fn repository(&self) -> CashuRepository {
        self.repository
    }

    pub closed spec fn cached_mints(&self) -> Seq<CashuMint> {
        self.mints@
    }

    pub open spec fn proofs(&self) -> Seq<CashuProof> {
        self.repository().proofs()
    }

    pub open spec fn pending_tokens(&self) -> Seq<PendingCashuToken> {
        self.repository().pending_tokens()
    }

    pub open spec fn mints(&self) -> Seq<CashuMint> {
        self.repository().mints()
    }

    /// The store is well formed and the mint cache mirrors its mint records.
    pub open spec fn wf(&self) -> bool {
        &&& self.repository().wf()
        &&& self.cached_mints() == self.mints()
    }

    /// A wallet over `repository`, with the mint cache loaded from it.
    pub fn new(repository: CashuRepository) -> (r: Self)
        requires
            repository.wf(),
        ensures
            r.wf(),
            r.repository() == repository,
    {
        let mints = repository.get_mints();
        CashuWallet { repository, mints }
    }

    fn find_cached_mint(&self, keyset_id: &String) -> (r: Option<usize>)
        ensures
            match r {
                Some(k) => mint_index(self.mints@, keyset_id@, k as int),
                None => !mints_contain(self.mints@, keyset_id@),
            },
    {
        let mut k: usize = 0;
        while k < self.mints.len()
            invariant
                k <= self.mints.len(),
                forall|j: int| 0 <= j < k ==> (#[trigger] self.mints@[j]).keyset_id@ != keyset_id@,
            decreases self.mints.len() - k,
        {
            if self.mints[k].keyset_id == *keyset_id {
                return Some(k);
            }
            k += 1;
        }
        None
    }

    /// Registers a mint, or returns the record already kept for its keyset id.
    pub fn add_mint(&mut self, mint: CashuMint) -> (r: CashuMint)
        requires
            old(self).wf(),
        ensures
            final(self).wf(),
            final(self).proofs() == old(self).proofs(),
            final(self).pending_tokens() == old(self).pending_tokens(),
            registration(old(self).mints(), mint, final(self).mints(), r),
    {
        match self.find_cached_mint(&mint.keyset_id) {
            Some(k) => self.mints[k].clone(),
            None => {
                let added = self.repository.add_mint(mint.clone());
                match added {
                    Ok(m) => {
                        self.mints.push(m.clone());
                        m
                    },
                    // the cache mirrors the records, so the keyset id is free there too
                    Err(_) => mint,
                }
            },
        }
    }

    /// The known mints.
    pub fn get_mints(&self) -> (r: Vec<CashuMint>)
        requires
            self.wf(),
        ensures
            r@ == self.mints(),
    {
        self.repository.get_mints()
    }

    /// The stored proofs.
    pub fn get_proofs(&self) -> (r: Vec<CashuProof>)
        ensures
            r@ == self.proofs(),
    {
        self.repository.get_proofs()
    }

    /// The recorded pending tokens.
    pub fn get_pending_tokens(&self) -> (r: Vec<PendingCashuToken>)
        ensures
            r@ == self.pending_tokens(),
    {
        self.repository.get_pending_tokens()
    }

    /// Stores `proofs` one by one, registering the keyset of each with
    /// `mint_url` and the default trust level when it is unknown; returns the
    /// sum of their amounts. Fails at the first proof whose identity is taken,
    /// keeping the ones stored before it.
    pub fn store_proofs(&mut self, mint_url: &String, proofs: Vec<CashuProof>) -> (r: Result<
        u64,
        WalletError,
    >)
        requires
            old(self).wf(),
            all_keysets_known(proofs@),
            proofs_total(proofs@) <= u64::MAX,
        ensures
            final(self).wf(),
            final(self).pending_tokens() == old(self).pending_tokens(),
            mints_extended(old(self).mints(), mint_url@, final(self).mints()),
            fresh_records(old(self).proofs(), proofs@) ==> r == Ok::<u64, WalletError>(
                proofs_total(proofs@) as u64,
            ) && stored_all(old(self).proofs(), proofs@, final(self).proofs()) && keysets_registered(
                final(self).mints(),
                proofs@,
            ),
            !fresh_records(old(self).proofs(), proofs@) ==> r == Err::<u64, WalletError>(
                WalletError::StorageFailure,
            ) && exists|m: int|
                0 <= m < proofs@.len() && stored_all(
                    old(self).proofs(),
                    proofs@.take(m),
                    final(self).proofs(),
                ),
    {
        let ghost before = self.proofs();
        let ghost mints_before = self.mints();
        let ghost n: int = before.len() as int;
        let mut amount: u64 = 0;
        let mut i: usize = 0;
        proof {
            assert(before.take(n) =~= before);
            assert(proofs@.take(0) =~= Seq::<CashuProof>::empty());
            assert(mints_before.take(mints_before.len() as int) =~= mints_before);
        }
        while i < proofs.len()
            invariant
                i <= proofs.len(),
                self.wf(),
                self.pending_tokens() == old(self).pending_tokens(),
                before == old(self).proofs(),
                n == before.len(),
                mints_before == old(self).mints(),
                all_keysets_known(proofs@),
                proofs_total(proofs@) <= u64::MAX,
                amount == proofs_total(proofs@.take(i as int)),
                stored_all(before, proofs@.take(i as int), self.proofs()),
                fresh_records(before, proofs@.take(i as int)),
                mints_extended(mints_before, mint_url@, self.mints()),
                keysets_registered(self.mints(), proofs@.take(i as int)),
            decreases proofs.len() - i,
        {
            let ghost cur = self.proofs();
            let ghost pre = proofs@.take(i as int);
            let ghost next = proofs@.take(i + 1);
            proof {
                assert(next.drop_last() =~= pre);
                assert(next.last() == proofs@[i as int]);
                lemma_proofs_total_prefix(proofs@, i + 1);
            }
            let keyset_id = match &proofs[i].keyset_id {
                Some(k) => k.clone(),
                None => {
                    proof {
                        assert(proofs@[i as int].keyset_id is Some);
                    }
                    String::new()
                },
            };
            let ghost mints_prev = self.mints();
            if self.find_cached_mint(&keyset_id).is_none() {
                self.add_mint(
                    CashuMint {
                        keyset_id,
                        mint_url: mint_url.clone(),
                        trust_level: DEFAULT_TRUST_LEVEL,
                    },
                );
            }
            let ghost mints_now = self.mints();
            proof {
                assert forall|k: int| 0 <= k < next.len() implies mints_contain(
                    mints_now,
                    (#[trigger] next[k]).keyset_id.unwrap()@,
                ) by {
                    if k < i {
                        assert(next[k] == pre[k]);
                        let j = choose|j: int| mint_index(mints_prev, pre[k].keyset_id.unwrap()@, j);
                        assert(mints_now[j] == mints_prev[j]);
                        assert(mint_index(mints_now, pre[k].keyset_id.unwrap()@, j));
                    } else {
                        if !mints_contain(mints_prev, keyset_id@) {
                            assert(mint_index(mints_now, keyset_id@, mints_prev.len() as int));
                        } else {
                            let j = choose|j: int| mint_index(mints_prev, keyset_id@, j);
                            assert(mint_index(mints_now, keyset_id@, j));
                        }
                    }
                }
                assert(mints_now.take(mints_before.len() as int) =~= mints_before) by {
                    assert(mints_prev.take(mints_before.len() as int) =~= mints_before);
                }
            }
            let stored = self.repository.store_proof(proofs[i].clone());
            match stored {
                Ok(_) => {
                    amount = amount + proofs[i].amount_sat;
                    proof {
                        let after = self.proofs();
                        assert(after.take(n) =~= before) by {
                            assert(cur.take(n) =~= before);
                        }
                        assert forall|k: int| 0 <= k < next.len() implies is_record_of(
                            #[trigger] after[n + k],
                            next[k],
                        ) by {
                            if k < i {
                                assert(after[n + k] == cur[n + k]);
                                assert(is_record_of(cur[n + k], pre[k]));
                            }
                        }
                        assert forall|k: int| 0 <= k < next.len() implies {
                            &&& !proofs_contain_id(before, proof_identity(#[trigger] next[k]))
                            &&& forall|j: int| 0 <= j < k ==> proof_identity(next[j]) != proof_identity(next[k])
                        } by {
                            if k < i {
                                assert(next[k] == pre[k]);
                                assert forall|j: int| 0 <= j < k implies proof_identity(next[j]) != proof_identity(next[k]) by {
                                    assert(next[j] == pre[j]);
                                }
                            } else {
                                assert(!proofs_contain_id(cur, proof_identity(next[k])));
                                assert forall|x: int| 0 <= x < before.len() implies !proof_has_id(before[x], proof_identity(next[k])) by {
                                    assert(cur[x] == before[x]);
                                }
                                assert forall|j: int| 0 <= j < k implies proof_identity(next[j]) != proof_identity(next[k]) by {
                                    assert(is_record_of(cur[n + j], pre[j]));
                                    assert(next[j] == pre[j]);
                                }
                            }
                        }
                    }
                },
                Err(e) => {
                    proof {
                        assert(proofs_contain_id(cur, proof_identity(proofs@[i as int])));
                        let x = choose|x: int| 0 <= x < cur.len() && proof_has_id(cur[x], proof_identity(proofs@[i as int]));
                        if x < n {
                            assert(cur[x] == before[x]);
                            assert(!fresh_records(before, proofs@) ) by {
                                assert(proofs_contain_id(before, proof_identity(proofs@[i as int])));
                            }
                        } else {
                            let j = x - n;
                            assert(is_record_of(cur[n + j], pre[j]));
                            assert(proofs@[j] == pre[j]);
                            assert(!fresh_records(before, proofs@)) by {
                                assert(proof_identity(proofs@[j]) == proof_identity(proofs@[i as int]));
                            }
                        }
                    }
                    return Err(e);
                },
            }
            i += 1;
        }
        proof {
            assert(proofs@.take(i as int) =~= proofs@);
        }
        Ok(amount)
    }

    /// Takes in the proofs that the mint of `mint_url` issued for a claimed
    /// token, or the failure of that exchange, which leaves the wallet as it is.
    pub fn claim_token(&mut self, mint_url: String, received: Result<Vec<CashuProof>, WalletError>) -> (r:
        Result<u64, WalletError>)
        requires
            old(self).wf(),
            received is Ok ==> all_keysets_known(received.unwrap()@) && proofs_total(
                received.unwrap()@,
            ) <= u64::MAX,
        ensures
            final(self).wf(),
            final(self).pending_tokens() == old(self).pending_tokens(),
            received is Err ==> r == Err::<u64, WalletError>(received.unwrap_err()) && *final(self)
                == *old(self),
            received is Ok ==> {
                let new = received.unwrap()@;
                &&& mints_extended(old(self).mints(), mint_url@, final(self).mints())
                &&& fresh_records(old(self).proofs(), new) ==> r == Ok::<u64, WalletError>(
                    proofs_total(new) as u64,
                ) && stored_all(old(self).proofs(), new, final(self).proofs())
                    && keysets_registered(final(self).mints(), new)
                &&& !fresh_records(old(self).proofs(), new) ==> r == Err::<u64, WalletError>(
                    WalletError::StorageFailure,
                )
            },
    {
        match received {
            Ok(proofs) => self.store_proofs(&mint_url, proofs),
            Err(e) => Err(e),
        }
    }

    /// Picks the proofs of a token send from a known keyset: the shortest
    /// prefix, in ascending order of amount (ties in stored order), whose sum
    /// reaches `amount_sat`. Nothing is changed; the mint exchange comes next.
    pub fn create_token_from_keyset(
        &self,
        keyset_id: String,
        amount_sat: u64,
        memo: Option<String>,
    ) -> (r: Result<
        SendPlan,
        WalletError,
    >)
        requires
            self.wf(),
            amount_sat > 0,
        ensures
            !mints_contain(self.mints(), keyset_id@) ==> r == Err::<SendPlan, WalletError>(
                WalletError::NotFound,
            ),
            mints_contain(self.mints(), keyset_id@) && proofs_total(
                keyset_proofs(self.proofs(), keyset_id@),
            ) < amount_sat ==> r == Err::<SendPlan, WalletError>(WalletError::InsufficientFunds),
            mints_contain(self.mints(), keyset_id@) && proofs_total(
                keyset_proofs(self.proofs(), keyset_id@),
            ) >= amount_sat ==> r is Ok && {
                let plan = r.unwrap();
                &&& plan.keyset_id@ == keyset_id@
                &&& plan.amount_sat == amount_sat
                &&& plan.memo == memo
                &&& exists|k: int|
                    mint_index(self.mints(), keyset_id@, k) && plan.mint_url == self.mints()[k].mint_url
                &&& greedy_selection(
                    keyset_proofs(self.proofs(), keyset_id@),
                    amount_sat as nat,
                    plan.selected@,
                    plan.order@,
                )
            },
    {
        let mint_url = match self.find_cached_mint(&keyset_id) {
            Some(k) => self.mints[k].mint_url.clone(),
            None => {
                return Err(WalletError::NotFound);
            },
        };
        let all = self.repository.get_proofs();
        let ghost s = all@;
        let mut kp: Vec<CashuProof> = Vec::new();
        let mut i: usize = 0;
        while i < all.len()
            invariant
                i <= all.len(),
                s == all@,
                kp@ == keyset_proofs(s.take(i as int), keyset_id@),
            decreases all.len() - i,
        {
            proof {
                assert(s.take(i + 1).drop_last() =~= s.take(i as int));
            }
            let keep = match &all[i].keyset_id {
                Some(k) => *k == keyset_id,
                None => false,
            };
            if keep {
                kp.push(all[i].clone());
            }
            i += 1;
        }
        proof {
            assert(s.take(s.len() as int) =~= s);
        }
        let ghost kps = kp@;
        let mut pairs: Vec<(u64, usize)> = Vec::new();
        let mut j: usize = 0;
        while j < kp.len()
            invariant
                j <= kp.len(),
                kps == kp@,
                pairs.len() == j,
                forall|t: int| 0 <= t < j ==> #[trigger] pairs@[t] == (kps[t].amount_sat, t as usize),
                pair_sum(pairs@) == proofs_total(kps.take(j as int)),
            decreases kp.len() - j,
        {
            proof {
                assert(kps.take(j + 1).drop_last() =~= kps.take(j as int));
            }
            let ghost prev_pairs = pairs@;
            pairs.push((kp[j].amount_sat, j));
            proof {
                assert(pairs@.drop_last() =~= prev_pairs);
            }
            j += 1;
        }
        proof {
            assert(kps.take(kps.len() as int) =~= kps);
            assert(pairs@.no_duplicates()) by {
                assert forall|a: int, b: int| 0 <= a < pairs@.len() && 0 <= b < pairs@.len() && a != b implies pairs@[a] != pairs@[b] by {
                    assert(pairs@[a].1 == a as usize);
                    assert(pairs@[b].1 == b as usize);
                }
            }
            pairs@.lemma_multiset_has_no_duplicates();
        }
        let ghost ps = pairs@;
        let sorted = sorted_pairs(pairs);
        let ghost ss = sorted@;
        proof {
            lemma_pair_sum_permutation(ps, ss);
            assert(ss.len() == ps.len()) by {
                assert(ss.to_multiset().len() == ps.to_multiset().len());
            }
            ss.lemma_multiset_has_no_duplicates_conv();
            assert forall|t: int| 0 <= t < ss.len() implies (#[trigger] ss[t]).1 < kps.len()
                && ss[t].0 == kps[ss[t].1 as int].amount_sat by {
                assert(ss.to_multiset().count(ss[t]) > 0);
                assert(ps.contains(ss[t]));
                let x = choose|x: int| 0 <= x < ps.len() && ps[x] == ss[t];
                assert(ps[x] == (kps[x].amount_sat, x as usize));
            }
        }
        let mut selected: Vec<CashuProof> = Vec::new();
        let mut acc: u128 = 0;
        let mut m: usize = 0;
        let mut reached = false;
        while m < sorted.len() && !reached
            invariant
                m <= sorted.len(),
                ss == sorted@,
                ss.len() == kps.len(),
                kps == kp@,
                forall|t: int| 0 <= t < ss.len() ==> (#[trigger] ss[t]).1 < kps.len()
                    && ss[t].0 == kps[ss[t].1 as int].amount_sat,
                selected.len() == m,
                forall|t: int| 0 <= t < m ==> #[trigger] selected@[t] == kps[ss[t].1 as int],
                acc == proofs_total(selected@),
                acc == pair_sum(ss.take(m as int)),
                !reached ==> acc < amount_sat,
                reached ==> m > 0 && acc >= amount_sat && proofs_total(selected@.drop_last()) < amount_sat,
            decreases sorted.len() - m,
        {
            let ghost prev = selected@;
            let k = sorted[m].1;
            selected.push(kp[k].clone());
            acc = acc + sorted[m].0 as u128;
            proof {
                assert(selected@.drop_last() =~= prev);
                assert(ss.take(m + 1).drop_last() =~= ss.take(m as int));
            }
            if acc >= amount_sat as u128 {
                reached = true;
            }
            m += 1;
        }
        if !reached {
            proof {
                assert(ss.take(m as int) =~= ss);
            }
            return Err(WalletError::InsufficientFunds);
        }
        let ghost pos = Seq::new(m as nat, |t: int| ss[t].1 as int);
        proof {
            lemma_pair_sum_prefix(ss, m as int);
            assert forall|a: int, b: int| 0 <= a < b < pos.len() implies precedes(kps, #[trigger] pos[a], #[trigger] pos[b]) by {
                assert(pair_le(ss[a], ss[b]));
                assert(ss[a] != ss[b]);
            }
            assert forall|q: int| 0 <= q < kps.len() && !pos.contains(q) implies precedes(kps, pos.last(), q) by {
                assert(ps[q] == (kps[q].amount_sat, q as usize));
                assert(ps.to_multiset().count(ps[q]) > 0);
                assert(ss.contains(ps[q]));
                let t = choose|t: int| 0 <= t < ss.len() && ss[t] == ps[q];
                if t < m {
                    assert(pos[t] == q);
                }
                assert(pair_le(ss[m - 1], ss[t]));
                assert(ss[m - 1] != ss[t]);
            }
        }
        Ok(
            SendPlan {
                keyset_id,
                mint_url,
                amount_sat,
                memo,
                selected,
                order: Ghost(pos),
            },
        )
    }

    /// Completes a token send once the mint answered. A failed exchange leaves
    /// the wallet untouched. Otherwise the selected proofs are deleted, the
    /// change is stored (registering unknown keysets with the plan's mint) and
    /// the token is recorded as sent and unclaimed.
    pub fn finish_token_send(
        &mut self,
        plan: &SendPlan,
        outcome: Result<SendOutcome, WalletError>,
        datetime: u64,
    ) -> (r: Result<PendingCashuToken, WalletError>)
        requires
            old(self).wf(),
            outcome is Ok ==> all_keysets_known(outcome.unwrap().change_proofs@) && proofs_total(
                outcome.unwrap().change_proofs@,
            ) <= u64::MAX,
        ensures
            final(self).wf(),
            outcome is Err ==> r == Err::<PendingCashuToken, WalletError>(outcome.unwrap_err())
                && *final(self) == *old(self),
            outcome is Ok ==> {
                let rem = remove_selected(old(self).proofs(), plan.selected@);
                let change = outcome.unwrap().change_proofs@;
                let tok = sent_token(plan.amount_sat, outcome.unwrap().token, datetime);
                let ok = fresh_records(rem, change) && !tokens_contain_id(
                    old(self).pending_tokens(),
                    token_identity(tok),
                );
                &&& mints_extended(old(self).mints(), plan.mint_url@, final(self).mints())
                &&& ok ==> r is Ok && is_token_record_of(r.unwrap(), tok) && stored_all(
                    rem,
                    change,
                    final(self).proofs(),
                ) && final(self).pending_tokens() == old(self).pending_tokens().push(r.unwrap())
                    && keysets_registered(final(self).mints(), change)
                &&& !ok ==> r == Err::<PendingCashuToken, WalletError>(WalletError::StorageFailure)
            },
    {
        let o = match outcome {
            Ok(o) => o,
            Err(e) => {
                return Err(e);
            },
        };
        let ghost start = self.proofs();
        let mut k: usize = 0;
        while k < plan.selected.len()
            invariant
                k <= plan.selected.len(),
                self.wf(),
                self.mints() == old(self).mints(),
                self.pending_tokens() == old(self).pending_tokens(),
                start == old(self).proofs(),
                self.proofs() == remove_selected(start, plan.selected@.take(k as int)),
            decreases plan.selected.len() - k,
        {
            proof {
                assert(plan.selected@.take(k + 1).drop_last() =~= plan.selected@.take(k as int));
            }
            match &plan.selected[k].id {
                Some(id) => {
                    self.repository.delete_proof(id.clone());
                },
                None => {},
            }
            k += 1;
        }
        proof {
            assert(plan.selected@.take(k as int) =~= plan.selected@);
        }
        let ghost pending_before = self.pending_tokens();
        let stored = self.store_proofs(&plan.mint_url, o.change_proofs);
        if stored.is_err() {
            return Err(WalletError::StorageFailure);
        }
        let record = self.repository.add_pending_token(
            PendingCashuToken {
                id: None,
                claimed: false,
                datetime,
                token: o.token,
                source: PendingCashuTokenSource::Sent,
                amount_sat: plan.amount_sat,
            },
        );
        match record {
            Ok(t) => Ok(t),
            Err(_) => Err(WalletError::StorageFailure),
        }
    }
}

} // verus!
