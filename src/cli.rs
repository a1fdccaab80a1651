use vstd::prelude::*;

verus! {

/// The commands of the command-line wallet.
#[derive(PartialEq, Eq, Debug)]
pub enum Commands {
    Info,
    Sync { light: Option<bool> },
    Address,
    Assets,
    Balance { currency_symbol: Option<String> },
    Contacts,
    ImportContacts { npub: String },
    DeleteContact { contact_id: String },
    CashuClaim { token: String },
    CashuMints,
    CashuSend { keyset_id: String, amount_sat: u64 },
    RgbCreateUtxos,
    RgbCreateAssetNia { ticker: String, name: String, precision: u8, amount: u64 },
    RgbInvoice {
        asset_id: Option<String>,
        amount: Option<u64>,
        duration_seconds: Option<u32>,
        min_confirmations: Option<u8>,
        transport_url: Option<String>,
        blinded: Option<bool>,
    },
}

/// The parsed command line: a command and an optional file argument.
#[derive(PartialEq, Eq, Debug)]
pub struct Args {
    pub cmd: Commands,
    pub file: Option<String>,
}

} // verus!
