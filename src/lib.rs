//! Aggregation core of a multi-asset wallet: e-cash proof custody and coin
//! selection, per-layer asset adapters, balance triage by currency, and the
//! reconciliation of smart-contract asset snapshots.
pub mod amount;
pub mod asset;
pub mod balance;
pub mod builder;
pub mod cashu;
pub mod cashu_repository;
pub mod cashu_wallet;
pub mod cli;
pub mod contacts;
pub mod enums;
pub mod errors;
pub mod rgb;
pub mod txo;
pub mod walletka;
