//! The tables of the store, one module each.

pub mod address;
pub mod block;
pub mod price_update;
pub mod swap;
pub mod token;
pub mod token_transfer;
pub mod transaction;
pub mod transaction_output;
