use vstd::prelude::*;

verus! {

/// Failures of the wallet core.
#[derive(Clone, Copy, PartialEq, Eq, Structural, Debug)]
pub enum WalletError {
    /// Bad token or address text.
    MalformedInput,
    /// Unknown mint, proof or record.
    NotFound,
    /// The stored proofs cannot reach the requested amount.
    InsufficientFunds,
    /// The mint refused the exchange (for instance an already spent token).
    ExchangeRejected,
    /// A collaborator could not be reached.
    NetworkUnavailable,
    /// A record operation failed (for instance an identity that exists already).
    StorageFailure,
    /// The values to add up do not fit in 64 bits.
    AmountOverflow,
}

/// Failures reported by the on-chain layer, with the collaborator's details.
#[derive(PartialEq, Eq, Debug)]
pub enum WalletkaError {
    /// An invalid bitcoin address has been provided
    InvalidAddress { details: String },
    /// The provided mnemonic phrase is invalid
    InvalidMnemonic { details: String },
    /// The provided PSBT could not be parsed
    InvalidPsbt { details: String },
    /// The provided pubkey is invalid
    InvalidPubkey { details: String },
    /// The provided script is invalid
    InvalidScript { details: String },
    /// An error was received from the Electrum server
    Electrum { details: String },
    /// An error in bdk
    Bdk { details: String },
}

pub open spec fn error_message(e: WalletkaError) -> Seq<char> {
    match e {
        WalletkaError::InvalidAddress { details } => "Address error: "@ + details@,
        WalletkaError::InvalidMnemonic { details } => "Invalid mnemonic error: "@ + details@,
        WalletkaError::InvalidPsbt { details } => "Invalid PSBT: "@ + details@,
        WalletkaError::InvalidPubkey { details } => "Invalid pubkey: "@ + details@,
        WalletkaError::InvalidScript { details } => "Invalid script: "@ + details@,
        WalletkaError::Electrum { details } => "Electrum error: "@ + details@,
        WalletkaError::Bdk { details } => "Bdk error: "@ + details@,
    }
}

impl WalletkaError {
    /// The human-readable description of the error.
    pub fn message(&self) -> (r: String)
        ensures
            r@ == error_message(*self),
    {
        match self {
            WalletkaError::InvalidAddress { details } => String::from_str("Address error: ").concat(
                details.as_str(),
            ),
            WalletkaError::InvalidMnemonic { details } => String::from_str(
                "Invalid mnemonic error: ",
            ).concat(details.as_str()),
            WalletkaError::InvalidPsbt { details } => String::from_str("Invalid PSBT: ").concat(
                details.as_str(),
            ),
            WalletkaError::InvalidPubkey { details } => String::from_str("Invalid pubkey: ").concat(
                details.as_str(),
            ),
            WalletkaError::InvalidScript { details } => String::from_str("Invalid script: ").concat(
                details.as_str(),
            ),
            WalletkaError::Electrum { details } => String::from_str("Electrum error: ").concat(
                details.as_str(),
            ),
            WalletkaError::Bdk { details } => String::from_str("Bdk error: ").concat(
                details.as_str(),
            ),
        }
    }
}

} // verus!
