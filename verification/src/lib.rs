//! Balance watching for accounts on a Solana ledger: the configuration
//! language, the gauge store and the polling cycles of the two watchers.

pub mod account;
pub mod balance;
pub mod base58;
pub mod cycle;
pub mod metrics;
pub mod program_accounts_balance;
pub mod sol;
pub mod text;
