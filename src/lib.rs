//! A ledger of client accounts: deposits, withdrawals, disputes, resolutions and
//! chargebacks applied to exact fixed-point balances.
pub mod amount;
pub mod processor;
pub mod laws;
pub mod rpc;
