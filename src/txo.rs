use vstd::prelude::*;

verus! {

/// An unspent on-chain output of the wallet.
#[derive(PartialEq, Eq, Debug)]
pub struct Txo {
    pub id: Option<String>,
    /// Transaction id, hex-encoded.
    pub tx_id: String,
    pub vout: u32,
    pub amount_sats: u64,
    pub spent: bool,
}

impl Clone for Txo {
    fn clone(&self) -> (r: Self)
        ensures
            r == *self,
    {
        Txo {
            id: crate::cashu::clone_opt_string(&self.id),
            tx_id: self.tx_id.clone(),
            vout: self.vout,
            amount_sats: self.amount_sats,
            spent: self.spent,
        }
    }
}

} // verus!
