use vstd::prelude::*;

verus! {

/// Clones an optional string exactly.
pub fn clone_opt_string(s: &Option<String>) -> (r: Option<String>)
    ensures
        r == *s,
{
    match s {
        Some(v) => Some(v.clone()),
        None => None,
    }
}

/// A bearer e-cash proof issued by a mint.
#[derive(PartialEq, Eq, Debug)]
pub struct CashuProof {
    /// Record identity, assigned when the proof is stored.
    pub id: Option<String>,
    pub keyset_id: Option<String>,
    pub amount_sat: u64,
    pub secret: String,
    /// The mint's signature (hex-encoded public key).
    pub c: String,
}

impl Clone for CashuProof {
    fn clone(&self) -> (r: Self)
        ensures
            r == *self,
    {
        CashuProof {
            id: clone_opt_string(&self.id),
            keyset_id: clone_opt_string(&self.keyset_id),
            amount_sat: self.amount_sat,
            secret: self.secret.clone(),
            c: self.c.clone(),
        }
    }
}

impl CashuProof {
    pub fn new(keyset_id: Option<String>, amount_sat: u64, secret: String, c: String) -> (r: Self)
        ensures
            r == (CashuProof { id: None, keyset_id, amount_sat, secret, c }),
    {
        CashuProof { id: None, keyset_id, amount_sat, secret, c }
    }
}

#[derive(Clone, Copy, PartialEq, Eq, Structural, Debug)]
pub enum PendingCashuTokenSource {
    Received,
    Sent,
}

/// A token that was sent or received and may not be claimed yet.
#[derive(PartialEq, Eq, Debug)]
pub struct PendingCashuToken {
    /// Record identity, assigned when the token is recorded.
    pub id: Option<String>,
    pub claimed: bool,
    /// Creation time, in seconds since the Unix epoch.
    pub datetime: u64,
    /// The serialized token.
    pub token: String,
    pub source: PendingCashuTokenSource,
    pub amount_sat: u64,
}

impl Clone for PendingCashuToken {
    fn clone(&self) -> (r: Self)
        ensures
            r == *self,
    {
        PendingCashuToken {
            id: clone_opt_string(&self.id),
            claimed: self.claimed,
            datetime: self.datetime,
            token: self.token.clone(),
            source: self.source,
            amount_sat: self.amount_sat,
        }
    }
}

/// A known mint; the keyset id is its key.
#[derive(PartialEq, Eq, Debug)]
pub struct CashuMint {
    pub mint_url: String,
    pub trust_level: i32,
    pub keyset_id: String,
}

impl Clone for CashuMint {
    fn clone(&self) -> (r: Self)
        ensures
            r == *self,
    {
        CashuMint {
            mint_url: self.mint_url.clone(),
            trust_level: self.trust_level,
            keyset_id: self.keyset_id.clone(),
        }
    }
}

/// The sum of the proofs' amounts.
pub open spec fn proofs_total(s: Seq<CashuProof>) -> nat
    decreases s.len(),
{
    if s.len() == 0 {
        0
    } else {
        proofs_total(s.drop_last()) + s.last().amount_sat as nat
    }
}

/// The sum of the proofs' amounts, or `None` when it does not fit in 64 bits.
pub fn proofs_total_of(proofs: &Vec<CashuProof>) -> (r: Option<u64>)
    ensures
        proofs_total(proofs@) <= u64::MAX ==> r == Some(proofs_total(proofs@) as u64),
        proofs_total(proofs@) > u64::MAX ==> r is None,
{
    let mut total: u64 = 0;
    let mut k: usize = 0;
    while k < proofs.len()
        invariant
            k <= proofs.len(),
            total == proofs_total(proofs@.take(k as int)),
        decreases proofs.len() - k,
    {
        proof {
            assert(proofs@.take(k + 1).drop_last() =~= proofs@.take(k as int));
        }
        match total.checked_add(proofs[k].amount_sat) {
            Some(t) => {
                total = t;
            },
            None => {
                proof {
                    lemma_proofs_total_prefix(proofs@, k + 1);
                }
                return None;
            },
        }
        k += 1;
    }
    proof {
        assert(proofs@.take(k as int) =~= proofs@);
    }
    Some(total)
}

/// A prefix never sums to more than the whole.
pub proof fn lemma_proofs_total_prefix(s: Seq<CashuProof>, i: int)
    requires
        0 <= i <= s.len(),
    ensures
        proofs_total(s.take(i)) <= proofs_total(s),
    decreases s.len(),
{
    if i == s.len() {
        assert(s.take(i) =~= s);
    } else {
        lemma_proofs_total_prefix(s.drop_last(), i);
        assert(s.drop_last().take(i) =~= s.take(i));
    }
}

} // verus!
