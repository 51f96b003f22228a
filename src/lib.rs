//! A payments engine: a verified ledger of client accounts that applies
//! deposits, withdrawals, disputes, resolutions and chargebacks in order.

pub mod db;
pub mod errors;
pub mod input;
pub mod laws;
pub mod model;
pub mod transaction_processor;
