//! A per-client payments ledger: deposits, withdrawals, disputes,
//! resolutions and chargebacks over fixed-precision amounts.
pub mod client_account_state;
pub mod decimal;
pub mod engine;
pub mod error;
pub mod laws;
pub mod parse;
pub mod transaction_type;
