//! Transfer analysis for Solana transactions.
//!
//! The library works on a transaction, the status that executing it left
//! behind and the exchange events found in it. It tells whom watched accounts
//! sent native value or tokens to, and who stands behind a trade.

pub mod accounts;
pub mod attribution;
pub mod events;
pub mod holdings;
pub mod keys;
pub mod pairs;
pub mod transaction;
pub mod transfers;

pub use crate::accounts::{
    collect_account_keys_bs58, collect_account_keys_pubkeys, yellowstone_fee_payer,
    yellowstone_static_account_keys_arc,
};
pub use crate::attribution::{
    fill_pumpfun_instruction_users_from_token_balances,
    fill_pumpfun_routed_sell_users_from_signer_token_deltas, fill_pumpfun_transaction_fee_payer,
};
pub use crate::events::{DexEvent, EventMetadata, PumpFunTradeEvent};
pub use crate::keys::{
    Pubkey, Signature, parse_pubkey, pubkey_bytes_to_bs58, read_pubkey_fast,
    try_yellowstone_signature,
};
pub use crate::transaction::{
    Message, MessageHeader, TokenBalance, Transaction, TransactionStatusMeta, UiTokenAmount,
    lamport_balance_deltas, token_balance_raw_amount,
};
pub use crate::transfers::{
    collect_watch_transfer_counterparty_pairs, heuristic_sol_counterparties_for_watched_keys,
    spl_token_counterparty_by_owner,
};
