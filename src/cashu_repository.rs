use vstd::prelude::*;

use crate::cashu::{proofs_total, CashuMint, CashuProof, PendingCashuToken};
use crate::errors::WalletError;

verus! {

/// The lowercase hexadecimal SHA-256 digest of a text's UTF-8 bytes.
pub uninterp spec fn sha256_hex(s: Seq<char>) -> Seq<char>;

/// Relies on sha256::digest: the hex-encoded SHA-256 digest of the string's
/// bytes, which depends on the text alone.
#[verifier::external_body]
fn digest(s: &String) -> (r: String)
    ensures
        r@ == sha256_hex(s@),
{
    sha256::digest(s)
}

/// The record identity of a proof is the digest of its secret.
pub open spec fn proof_identity(p: CashuProof) -> Seq<char> {
    sha256_hex(p.secret@)
}

/// The record identity of a pending token is the digest of its text.
pub open spec fn token_identity(t: PendingCashuToken) -> Seq<char> {
    sha256_hex(t.token@)
}

pub open spec fn proof_has_id(p: CashuProof, id: Seq<char>) -> bool {
    p.id is Some && p.id.unwrap()@ == id
}

pub open spec fn proofs_contain_id(s: Seq<CashuProof>, id: Seq<char>) -> bool {
    exists|k: int| 0 <= k < s.len() && proof_has_id(s[k], id)
}

/// `q` is `p` as stored: the same proof under its record identity.
pub open spec fn is_record_of(q: CashuProof, p: CashuProof) -> bool {
    &&& proof_has_id(q, proof_identity(p))
    &&& q.keyset_id == p.keyset_id
    &&& q.amount_sat == p.amount_sat
    &&& q.secret == p.secret
    &&& q.c == p.c
}

/// The proofs without those of identity `id`, in order.
pub open spec fn drop_id(s: Seq<CashuProof>, id: Seq<char>) -> Seq<CashuProof>
    decreases s.len(),
{
    if s.len() == 0 {
        seq![]
    } else {
        let rest = drop_id(s.drop_last(), id);
        if proof_has_id(s.last(), id) {
            rest
        } else {
            rest.push(s.last())
        }
    }
}

pub open spec fn token_has_id(t: PendingCashuToken, id: Seq<char>) -> bool {
    t.id is Some && t.id.unwrap()@ == id
}

pub open spec fn tokens_contain_id(s: Seq<PendingCashuToken>, id: Seq<char>) -> bool {
    exists|k: int| 0 <= k < s.len() && token_has_id(s[k], id)
}

/// `q` is `t` as recorded: the same token under its record identity.
pub open spec fn is_token_record_of(q: PendingCashuToken, t: PendingCashuToken) -> bool {
    &&& token_has_id(q, token_identity(t))
    &&& q.claimed == t.claimed
    &&& q.datetime == t.datetime
    &&& q.token == t.token
    &&& q.source == t.source
    &&& q.amount_sat == t.amount_sat
}

pub open spec fn mint_index(s: Seq<CashuMint>, keyset_id: Seq<char>, k: int) -> bool {
    0 <= k < s.len() && s[k].keyset_id@ == keyset_id
}

pub open spec fn mints_contain(s: Seq<CashuMint>, keyset_id: Seq<char>) -> bool {
    exists|k: int| mint_index(s, keyset_id, k)
}

pub open spec fn mints_unique(s: Seq<CashuMint>) -> bool {
    forall|j: int, k: int|
        0 <= j < k < s.len() ==> (#[trigger] s[j]).keyset_id@ != (#[trigger] s[k]).keyset_id@
}

pub open spec fn all_proofs_identified(s: Seq<CashuProof>) -> bool {
    forall|k: int| 0 <= k < s.len() ==> (#[trigger] s[k]).id is Some
}

pub open spec fn all_tokens_identified(s: Seq<PendingCashuToken>) -> bool {
    forall|k: int| 0 <= k < s.len() ==> (#[trigger] s[k]).id is Some
}

/// No two stored proofs share an identity.
pub open spec fn proof_ids_unique(s: Seq<CashuProof>) -> bool {
    forall|i: int, j: int|
        0 <= i < j < s.len() ==> (#[trigger] s[i]).id.unwrap()@ != (#[trigger] s[j]).id.unwrap()@
}

/// Every proof left by `drop_id` was there before.
pub proof fn lemma_drop_id_subset(s: Seq<CashuProof>, id: Seq<char>, x: CashuProof)
    requires
        drop_id(s, id).contains(x),
    ensures
        s.contains(x),
        !proof_has_id(x, id),
    decreases s.len(),
{
    let rest = drop_id(s.drop_last(), id);
    if rest.contains(x) {
        lemma_drop_id_subset(s.drop_last(), id, x);
        let j = choose|j: int| 0 <= j < s.drop_last().len() && s.drop_last()[j] == x;
        assert(s[j] == x);
    } else {
        assert(x == s.last());
        assert(s[s.len() - 1] == x);
    }
}

/// A proof of another identity survives `drop_id`.
pub proof fn lemma_drop_id_keeps(s: Seq<CashuProof>, id: Seq<char>, x: CashuProof)
    requires
        s.contains(x),
        !proof_has_id(x, id),
    ensures
        drop_id(s, id).contains(x),
    decreases s.len(),
{
    let rest = drop_id(s.drop_last(), id);
    if s.last() == x {
        assert(rest.push(x)[rest.len() as int] == x);
    } else {
        let j = choose|j: int| 0 <= j < s.len() && s[j] == x;
        assert(s.drop_last()[j] == x);
        lemma_drop_id_keeps(s.drop_last(), id, x);
        if !proof_has_id(s.last(), id) {
            let t = choose|t: int| 0 <= t < rest.len() && rest[t] == x;
            assert(rest.push(s.last())[t] == x);
        }
    }
}

/// Identities stay unique under `drop_id`.
pub proof fn lemma_drop_id_unique(s: Seq<CashuProof>, id: Seq<char>)
    requires
        all_proofs_identified(s),
        proof_ids_unique(s),
    ensures
        proof_ids_unique(drop_id(s, id)),
    decreases s.len(),
{
    if s.len() > 0 {
        let pre = s.drop_last();
        lemma_drop_id_unique(pre, id);
        lemma_drop_id_identified(pre, id);
        let rest = drop_id(pre, id);
        if !proof_has_id(s.last(), id) {
            let r = rest.push(s.last());
            assert forall|i: int, j: int| 0 <= i < j < r.len() implies (#[trigger] r[i]).id.unwrap()@
                != (#[trigger] r[j]).id.unwrap()@ by {
                if j == rest.len() {
                    assert(rest.contains(r[i]));
                    lemma_drop_id_subset(pre, id, r[i]);
                    let x = choose|x: int| 0 <= x < pre.len() && pre[x] == r[i];
                    assert(s[x] == r[i]);
                    assert(s[s.len() - 1] == s.last());
                } else {
                    assert(r[i] == rest[i] && r[j] == rest[j]);
                }
            }
        }
    }
}

/// Without a proof of that identity, `drop_id` changes nothing.
pub proof fn lemma_drop_id_absent(s: Seq<CashuProof>, id: Seq<char>)
    requires
        !proofs_contain_id(s, id),
    ensures
        drop_id(s, id) == s,
    decreases s.len(),
{
    if s.len() > 0 {
        assert(!proof_has_id(s[s.len() - 1], id));
        assert forall|k: int| 0 <= k < s.drop_last().len() implies !proof_has_id(s.drop_last()[k], id) by {
            assert(s.drop_last()[k] == s[k]);
        }
        lemma_drop_id_absent(s.drop_last(), id);
        assert(s.drop_last().push(s.last()) =~= s);
    }
}

/// Dropping the identity of a stored proof takes exactly its amount away.
pub proof fn lemma_drop_id_total(s: Seq<CashuProof>, x: CashuProof)
    requires
        all_proofs_identified(s),
        proof_ids_unique(s),
        s.contains(x),
    ensures
        proofs_total(drop_id(s, x.id.unwrap()@)) + x.amount_sat == proofs_total(s),
    decreases s.len(),
{
    let id = x.id.unwrap()@;
    let pre = s.drop_last();
    let k = choose|k: int| 0 <= k < s.len() && s[k] == x;
    if k == s.len() - 1 {
        assert forall|j: int| 0 <= j < pre.len() implies !proof_has_id(pre[j], id) by {
            assert(pre[j] == s[j]);
        }
        lemma_drop_id_absent(pre, id);
    } else {
        assert(pre[k] == x);
        assert(s[k].id.unwrap()@ != s[s.len() - 1].id.unwrap()@);
        lemma_drop_id_total(pre, x);
        let rest = drop_id(pre, id);
        assert(rest.push(s.last()).drop_last() =~= rest);
    }
}

pub proof fn lemma_drop_id_identified(s: Seq<CashuProof>, id: Seq<char>)
    requires
        all_proofs_identified(s),
    ensures
        all_proofs_identified(drop_id(s, id)),
        proofs_total(drop_id(s, id)) <= proofs_total(s),
    decreases s.len(),
{
    if s.len() > 0 {
        lemma_drop_id_identified(s.drop_last(), id);
        let rest = drop_id(s.drop_last(), id);
        assert(rest.push(s.last()).drop_last() =~= rest);
    }
}

/// The persisted records of the e-cash layer: proofs, pending tokens and mints.
/// Proof and token identities are the digests of their secret and text;
/// creating a record whose identity exists fails.
pub struct CashuRepository {
    proofs: Vec<CashuProof>,
    pending_tokens: Vec<PendingCashuToken>,
    mints: Vec<CashuMint>,
}

impl CashuRepository {
    pub closed spec fn proofs(&self) -> Seq<CashuProof> {
        self.proofs@
    }

    pub closed spec fn pending_tokens(&self) -> Seq<PendingCashuToken> {
        self.pending_tokens@
    }

    pub closed spec fn mints(&self) -> Seq<CashuMint> {
        self.mints@
    }

    /// Every stored record carries its identity and mints are keyed by keyset id.
    pub open spec fn wf(&self) -> bool {
        &&& all_proofs_identified(self.proofs())
        &&& proof_ids_unique(self.proofs())
        &&& all_tokens_identified(self.pending_tokens())
        &&& mints_unique(self.mints())
    }

    /// An empty store.
    pub fn new() -> (r: Self)
        ensures
            r.wf(),
            r.proofs() == Seq::<CashuProof>::empty(),
            r.pending_tokens() == Seq::<PendingCashuToken>::empty(),
            r.mints() == Seq::<CashuMint>::empty(),
    {
        CashuRepository { proofs: Vec::new(), pending_tokens: Vec::new(), mints: Vec::new() }
    }

    fn find_proof(&self, id: &String) -> (r: Option<usize>)
        ensures
            match r {
                Some(k) => k < self.proofs@.len() && proof_has_id(self.proofs@[k as int], id@)
                    && forall|j: int| 0 <= j < k ==> !proof_has_id(#[trigger] self.proofs@[j], id@),
                None => !proofs_contain_id(self.proofs@, id@),
            },
    {
        let mut k: usize = 0;
        while k < self.proofs.len()
            invariant
                k <= self.proofs.len(),
                forall|j: int| 0 <= j < k ==> !proof_has_id(#[trigger] self.proofs@[j], id@),
            decreases self.proofs.len() - k,
        {
            match &self.proofs[k].id {
                Some(pid) => {
                    if *pid == *id {
                        return Some(k);
                    }
                },
                None => {},
            }
            k += 1;
        }
        None
    }

    /// Stores a proof under the digest of its secret; fails when a proof of
    /// that identity is stored already.
    pub fn store_proof(&mut self, proof: CashuProof) -> (r: Result<CashuProof, WalletError>)
        requires
            old(self).wf(),
        ensures
            final(self).wf(),
            final(self).pending_tokens() == old(self).pending_tokens(),
            final(self).mints() == old(self).mints(),
            proofs_contain_id(old(self).proofs(), proof_identity(proof)) ==> r == Err::<
                CashuProof,
                WalletError,
            >(WalletError::StorageFailure) && final(self).proofs() == old(self).proofs(),
            !proofs_contain_id(old(self).proofs(), proof_identity(proof)) ==> r is Ok
                && is_record_of(r.unwrap(), proof) && final(self).proofs() == old(
                self,
            ).proofs().push(r.unwrap()),
    {
        let id = digest(&proof.secret);
        match self.find_proof(&id) {
            Some(_) => Err(WalletError::StorageFailure),
            None => {
                let stored = CashuProof {
                    id: Some(id),
                    keyset_id: proof.keyset_id,
                    amount_sat: proof.amount_sat,
                    secret: proof.secret,
                    c: proof.c,
                };
                self.proofs.push(stored.clone());
                Ok(stored)
            },
        }
    }

    /// All stored proofs.
    pub fn get_proofs(&self) -> (r: Vec<CashuProof>)
        ensures
            r@ == self.proofs(),
    {
        let mut r: Vec<CashuProof> = Vec::new();
        let mut k: usize = 0;
        while k < self.proofs.len()
            invariant
                k <= self.proofs.len(),
                r@ == self.proofs@.take(k as int),
            decreases self.proofs.len() - k,
        {
            r.push(self.proofs[k].clone());
            proof {
                assert(self.proofs@.take(k + 1) =~= self.proofs@.take(k as int).push(self.proofs@[k as int]));
            }
            k += 1;
        }
        proof {
            assert(self.proofs@.take(k as int) =~= self.proofs@);
        }
        r
    }

    /// The stored proof of identity `id`, if there is one.
    pub fn get_proof_by_id(&self, id: String) -> (r: Option<CashuProof>)
        ensures
            r is None <==> !proofs_contain_id(self.proofs(), id@),
            r is Some ==> proof_has_id(r.unwrap(), id@) && self.proofs().contains(r.unwrap()),
    {
        match self.find_proof(&id) {
            Some(k) => Some(self.proofs[k].clone()),
            None => None,
        }
    }

    /// Deletes the proofs of identity `id`; tells whether there was one.
    pub fn delete_proof(&mut self, id: String) -> (r: bool)
        requires
            old(self).wf(),
        ensures
            final(self).wf(),
            final(self).pending_tokens() == old(self).pending_tokens(),
            final(self).mints() == old(self).mints(),
            final(self).proofs() == drop_id(old(self).proofs(), id@),
            r == proofs_contain_id(old(self).proofs(), id@),
    {
        let ghost s = self.proofs@;
        let mut kept: Vec<CashuProof> = Vec::new();
        let mut found = false;
        let mut k: usize = 0;
        while k < self.proofs.len()
            invariant
                k <= self.proofs.len(),
                self.proofs@ == s,
                kept@ == drop_id(s.take(k as int), id@),
                found == proofs_contain_id(s.take(k as int), id@),
            decreases self.proofs.len() - k,
        {
            proof {
                assert(s.take(k + 1).drop_last() =~= s.take(k as int));
                let t0 = s.take(k as int);
                let t1 = s.take(k + 1);
                if proofs_contain_id(t0, id@) {
                    let j = choose|j: int| 0 <= j < k && proof_has_id(#[trigger] t0[j], id@);
                    assert(t1[j] == t0[j]);
                }
                if proof_has_id(s[k as int], id@) {
                    assert(t1[k as int] == s[k as int]);
                    assert(proofs_contain_id(t1, id@));
                }
                if proofs_contain_id(t1, id@) && !proof_has_id(s[k as int], id@) {
                    let j = choose|j: int| 0 <= j < k + 1 && proof_has_id(#[trigger] t1[j], id@);
                    assert(t0[j] == t1[j]);
                }
            }
            let matches = match &self.proofs[k].id {
                Some(pid) => *pid == id,
                None => false,
            };
            if matches {
                found = true;
            } else {
                kept.push(self.proofs[k].clone());
            }
            k += 1;
        }
        proof {
            assert(s.take(k as int) =~= s);
            lemma_drop_id_identified(s, id@);
            lemma_drop_id_unique(s, id@);
        }
        self.proofs = kept;
        found
    }

    fn find_token(&self, id: &String) -> (r: Option<usize>)
        ensures
            match r {
                Some(k) => k < self.pending_tokens@.len() && token_has_id(
                    self.pending_tokens@[k as int],
                    id@,
                ),
                None => !tokens_contain_id(self.pending_tokens@, id@),
            },
    {
        let mut k: usize = 0;
        while k < self.pending_tokens.len()
            invariant
                k <= self.pending_tokens.len(),
                forall|j: int| 0 <= j < k ==> !token_has_id(#[trigger] self.pending_tokens@[j], id@),
            decreases self.pending_tokens.len() - k,
        {
            match &self.pending_tokens[k].id {
                Some(tid) => {
                    if *tid == *id {
                        return Some(k);
                    }
                },
                None => {},
            }
            k += 1;
        }
        None
    }

    /// Records a pending token under the digest of its text; fails when a
    /// token of that identity is recorded already.
    pub fn add_pending_token(&mut self, token: PendingCashuToken) -> (r: Result<
        PendingCashuToken,
        WalletError,
    >)
        requires
            old(self).wf(),
        ensures
            final(self).wf(),
            final(self).proofs() == old(self).proofs(),
            final(self).mints() == old(self).mints(),
            tokens_contain_id(old(self).pending_tokens(), token_identity(token)) ==> r == Err::<
                PendingCashuToken,
                WalletError,
            >(WalletError::StorageFailure) && final(self).pending_tokens() == old(
                self,
            ).pending_tokens(),
            !tokens_contain_id(old(self).pending_tokens(), token_identity(token)) ==> r is Ok
                && is_token_record_of(r.unwrap(), token) && final(self).pending_tokens() == old(
                self,
            ).pending_tokens().push(r.unwrap()),
    {
        let id = digest(&token.token);
        match self.find_token(&id) {
            Some(_) => Err(WalletError::StorageFailure),
            None => {
                let stored = PendingCashuToken {
                    id: Some(id),
                    claimed: token.claimed,
                    datetime: token.datetime,
                    token: token.token,
                    source: token.source,
                    amount_sat: token.amount_sat,
                };
                self.pending_tokens.push(stored.clone());
                Ok(stored)
            },
        }
    }

    /// All recorded pending tokens.
    pub fn get_pending_tokens(&self) -> (r: Vec<PendingCashuToken>)
        ensures
            r@ == self.pending_tokens(),
    {
        let mut r: Vec<PendingCashuToken> = Vec::new();
        let mut k: usize = 0;
        while k < self.pending_tokens.len()
            invariant
                k <= self.pending_tokens.len(),
                r@ == self.pending_tokens@.take(k as int),
            decreases self.pending_tokens.len() - k,
        {
            r.push(self.pending_tokens[k].clone());
            proof {
                assert(self.pending_tokens@.take(k + 1) =~= self.pending_tokens@.take(k as int).push(
                    self.pending_tokens@[k as int],
                ));
            }
            k += 1;
        }
        proof {
            assert(self.pending_tokens@.take(k as int) =~= self.pending_tokens@);
        }
        r
    }

    /// Marks the pending token of identity `id` as claimed.
    pub fn set_pending_token_claimed(&mut self, id: String) -> (r: Result<(), WalletError>)
        requires
            old(self).wf(),
        ensures
            final(self).wf(),
            final(self).proofs() == old(self).proofs(),
            final(self).mints() == old(self).mints(),
            !tokens_contain_id(old(self).pending_tokens(), id@) ==> r == Err::<(), WalletError>(
                WalletError::NotFound,
            ) && final(self).pending_tokens() == old(self).pending_tokens(),
            tokens_contain_id(old(self).pending_tokens(), id@) ==> r is Ok && exists|k: int|
                0 <= k < old(self).pending_tokens().len() && token_has_id(
                    old(self).pending_tokens()[k],
                    id@,
                ) && final(self).pending_tokens() == old(self).pending_tokens().update(
                    k,
                    PendingCashuToken { claimed: true, ..old(self).pending_tokens()[k] },
                ),
    {
        match self.find_token(&id) {
            Some(k) => {
                let mut t = self.pending_tokens[k].clone();
                t.claimed = true;
                self.pending_tokens.set(k, t);
                Ok(())
            },
            None => Err(WalletError::NotFound),
        }
    }

    fn find_mint(&self, keyset_id: &String) -> (r: Option<usize>)
        ensures
            match r {
                Some(k) => mint_index(self.mints@, keyset_id@, k as int),
                None => !mints_contain(self.mints@, keyset_id@),
            },
    {
        let mut k: usize = 0;
        while k < self.mints.len()
            invariant
                k <= self.mints.len(),
                forall|j: int| 0 <= j < k ==> (#[trigger] self.mints@[j]).keyset_id@ != keyset_id@,
            decreases self.mints.len() - k,
        {
            if self.mints[k].keyset_id == *keyset_id {
                return Some(k);
            }
            k += 1;
        }
        None
    }

    /// Creates a mint record; fails when its keyset id is taken.
    pub fn add_mint(&mut self, cashu_mint: CashuMint) -> (r: Result<CashuMint, WalletError>)
        requires
            old(self).wf(),
        ensures
            final(self).wf(),
            final(self).proofs() == old(self).proofs(),
            final(self).pending_tokens() == old(self).pending_tokens(),
            mints_contain(old(self).mints(), cashu_mint.keyset_id@) ==> r == Err::<
                CashuMint,
                WalletError,
            >(WalletError::StorageFailure) && final(self).mints() == old(self).mints(),
            !mints_contain(old(self).mints(), cashu_mint.keyset_id@) ==> r == Ok::<
                CashuMint,
                WalletError,
            >(cashu_mint) && final(self).mints() == old(self).mints().push(cashu_mint),
    {
        match self.find_mint(&cashu_mint.keyset_id) {
            Some(_) => Err(WalletError::StorageFailure),
            None => {
                proof {
                    assert forall|j: int| 0 <= j < self.mints@.len() implies (
                    #[trigger] self.mints@[j]).keyset_id@ != cashu_mint.keyset_id@ by {
                        assert(!mint_index(self.mints@, cashu_mint.keyset_id@, j));
                    }
                }
                self.mints.push(cashu_mint.clone());
                Ok(cashu_mint)
            },
        }
    }

    /// All mint records.
    pub fn get_mints(&self) -> (r: Vec<CashuMint>)
        ensures
            r@ == self.mints(),
    {
        let mut r: Vec<CashuMint> = Vec::new();
        let mut k: usize = 0;
        while k < self.mints.len()
            invariant
                k <= self.mints.len(),
                r@ == self.mints@.take(k as int),
            decreases self.mints.len() - k,
        {
            r.push(self.mints[k].clone());
            proof {
                assert(self.mints@.take(k + 1) =~= self.mints@.take(k as int).push(self.mints@[k as int]));
            }
            k += 1;
        }
        proof {
            assert(self.mints@.take(k as int) =~= self.mints@);
        }
        r
    }

    /// The mint record of keyset `id`, if there is one.
    pub fn get_mint_by_id(&self, id: String) -> (r: Option<CashuMint>)
        requires
            self.wf(),
        ensures
            match r {
                Some(m) => exists|k: int| mint_index(self.mints(), id@, k) && m == self.mints()[k],
                None => !mints_contain(self.mints(), id@),
            },
    {
        match self.find_mint(&id) {
            Some(k) => Some(self.mints[k].clone()),
            None => None,
        }
    }

    /// Replaces the mint record of the same keyset id; fails when there is none.
    pub fn update_mint(&mut self, cashu_mint: CashuMint) -> (r: Result<CashuMint, WalletError>)
        requires
            old(self).wf(),
        ensures
            final(self).wf(),
            final(self).proofs() == old(self).proofs(),
            final(self).pending_tokens() == old(self).pending_tokens(),
            !mints_contain(old(self).mints(), cashu_mint.keyset_id@) ==> r == Err::<
                CashuMint,
                WalletError,
            >(WalletError::NotFound) && final(self).mints() == old(self).mints(),
            mints_contain(old(self).mints(), cashu_mint.keyset_id@) ==> r == Ok::<
                CashuMint,
                WalletError,
            >(cashu_mint) && exists|k: int|
                mint_index(old(self).mints(), cashu_mint.keyset_id@, k) && final(self).mints()
                    == old(self).mints().update(k, cashu_mint),
    {
        match self.find_mint(&cashu_mint.keyset_id) {
            Some(k) => {
                self.mints.set(k, cashu_mint.clone());
                Ok(cashu_mint)
            },
            None => Err(WalletError::NotFound),
        }
    }

    /// Deletes the mint record of keyset `id`; fails when there is none.
    pub fn delete_mint(&mut self, id: String) -> (r: Result<(), WalletError>)
        requires
            old(self).wf(),
        ensures
            final(self).wf(),
            final(self).proofs() == old(self).proofs(),
            final(self).pending_tokens() == old(self).pending_tokens(),
            !mints_contain(old(self).mints(), id@) ==> r == Err::<(), WalletError>(
                WalletError::NotFound,
            ) && final(self).mints() == old(self).mints(),
            mints_contain(old(self).mints(), id@) ==> r is Ok && exists|k: int|
                mint_index(old(self).mints(), id@, k) && final(self).mints() == old(
                    self,
                ).mints().remove(k),
    {
        match self.find_mint(&id) {
            Some(k) => {
                self.mints.remove(k);
                Ok(())
            },
            None => Err(WalletError::NotFound),
        }
    }
}

} // verus!
